//! HTTP/2 connection state machine (RFC 9113).

use std::collections::VecDeque;

use vstd::prelude::*;

use super::flow_control::{FlowController, DEFAULT_CONNECTION_WINDOW_SIZE, MAX_WINDOW_SIZE};
use super::frame;
use super::frame::{
    H2Frame, H2FrameHeader, FLAG_END_HEADERS, FLAG_END_STREAM, FRAME_DATA, FRAME_HEADERS,
    FRAME_HEADER_LEN,
};
use super::laws;
use super::model;
use super::model::{Conn, Limits, Sys};
use super::settings::H2Settings;
use super::stream;
use super::stream::{H2Stream, H2StreamState, StreamModel};
use crate::bytes;
use crate::bytes::HeaderField;
use crate::error;
use crate::error::Error;
use crate::hpack::codec::{HpackDecoder, HpackEncoder};
use crate::http;
use crate::http::TimeoutConfig;
use crate::io::IoBufs;

verus! {

/// HTTP/2 connection preface (RFC 9113 §3.4): `PRI * HTTP/2.0\r\n\r\nSM\r\n\r\n`.
pub const CONNECTION_PREFACE: [u8; 24] = [
    0x50, 0x52, 0x49, 0x20, 0x2a, 0x20, 0x48, 0x54, 0x54, 0x50, 0x2f, 0x32, 0x2e, 0x30, 0x0d, 0x0a,
    0x0d, 0x0a, 0x53, 0x4d, 0x0d, 0x0a, 0x0d, 0x0a,
];

/// How many events wait at most.
pub const MAX_EVENTS: usize = 64;

/// Events produced by the HTTP/2 connection.
#[derive(Debug, Clone, Copy, PartialEq, Eq, Structural)]
pub enum H2Event {
    /// Connection settings exchanged, ready for requests.
    Connected,
    /// Headers received on a stream.
    Headers(u64),
    /// Body data available on a stream.
    Data(u64),
    /// Stream reset by peer.
    StreamReset(u64, u32),
    /// Peer sent GOAWAY.
    GoAway(u64, u32),
    /// Stream finished (END_STREAM received).
    Finished(u64),
    /// A timeout fired (idle or header timeout).
    Timeout,
}

/// Connection role.
#[derive(Debug, Clone, Copy, PartialEq, Eq, Structural)]
pub enum Role {
    Client,
    Server,
}

/// Connection state.
#[derive(Debug, Clone, Copy, PartialEq, Eq, Structural)]
pub enum H2ConnState {
    /// Waiting for connection preface (client: send preface, server: expect preface).
    WaitingPreface,
    /// Waiting for initial SETTINGS from peer.
    WaitingSettings,
    /// Connection is active.
    Active,
    /// GOAWAY sent or received.
    Closing,
    /// Connection closed.
    Closed,
}

/// In-progress receive of a DATA frame's payload.
#[derive(Debug, Clone, Copy, PartialEq, Eq, Structural)]
pub struct PartialData {
    pub stream_id: u64,
    /// END_STREAM flag, applied once the whole payload and padding is consumed.
    pub end_stream: bool,
    /// Payload bytes still to deliver into the stream's `data_buf`.
    pub data_remaining: usize,
    /// Trailing padding bytes still to discard after the payload.
    pub pad_remaining: usize,
    /// Whether a matching stream exists. If not, payload bytes are still drained
    /// to stay frame-aligned, but discarded.
    pub deliver: bool,
}

/// HTTP/2 connection state machine.
///
/// I/O buffers are **not** owned by this struct; callers provide them via
/// [`IoBufs`] on every method that touches network data.
///
/// Generic parameters:
/// - `MAX_STREAMS`: maximum number of concurrent streams tracked
/// - `HDRBUF`: per-stream header buffer size
/// - `DATABUF`: per-stream data buffer size
#[derive(Debug)]
pub struct H2Connection<const MAX_STREAMS: usize, const HDRBUF: usize, const DATABUF: usize> {
    pub role: Role,
    pub state: H2ConnState,
    pub local_settings: H2Settings,
    pub peer_settings: H2Settings,
    pub streams: Vec<H2Stream<HDRBUF, DATABUF>>,
    pub encoder: HpackEncoder,
    pub decoder: HpackDecoder,
    pub send_offset: usize,
    pub conn_send_fc: FlowController,
    pub conn_recv_fc: FlowController,
    /// Connection-level receive-window credit not yet sent because the send
    /// buffer was full. Retried from `generate_output`.
    pub pending_conn_credit: u32,
    pub events: VecDeque<H2Event>,
    pub next_stream_id: u64,
    pub last_peer_stream_id: u64,
    pub continuation_stream_id: Option<u64>,
    pub settings_sent: bool,
    pub settings_ack_received: bool,
    pub peer_settings_received: bool,
    pub preface_sent: bool,
    pub preface_validated: bool,
    pub preface_bytes_seen: usize,
    pub goaway_sent: bool,
    pub timeout_config: TimeoutConfig,
    pub last_activity: u64,
    pub connection_start: u64,
    pub headers_phase_complete: bool,
    /// A DATA frame whose payload has not fully arrived. Its header (and pad
    /// length, if padded) has been drained; the remaining payload goes into the
    /// stream's `data_buf` as it arrives. So a DATA frame never has to sit in
    /// the receive buffer whole.
    pub partial_data: Option<PartialData>,
}

/// What is known of each stream.
pub open spec fn stream_views<const HDRBUF: usize, const DATABUF: usize>(
    ss: Seq<H2Stream<HDRBUF, DATABUF>>,
) -> Seq<StreamModel> {
    Seq::new(ss.len(), |i: int| ss[i]@)
}

/// One stream changes.
pub proof fn lemma_views_update<const HDRBUF: usize, const DATABUF: usize>(
    ss: Seq<H2Stream<HDRBUF, DATABUF>>,
    i: int,
    s: H2Stream<HDRBUF, DATABUF>,
)
    requires
        0 <= i < ss.len(),
        s.wf(),
        model::within(stream_views(ss), HDRBUF as int, DATABUF as int),
    ensures
        stream_views(ss.update(i, s)) == stream_views(ss).update(i, s@),
        model::within(stream_views(ss.update(i, s)), HDRBUF as int, DATABUF as int),
{
    assert(stream_views(ss.update(i, s)) =~= stream_views(ss).update(i, s@));
    model::within_update(stream_views(ss), HDRBUF as int, DATABUF as int, i, s@);
}

/// The stream at `i` is as the table of streams says.
pub proof fn lemma_views_at<const HDRBUF: usize, const DATABUF: usize>(
    ss: Seq<H2Stream<HDRBUF, DATABUF>>,
    i: int,
)
    requires
        0 <= i < ss.len(),
        model::within(stream_views(ss), HDRBUF as int, DATABUF as int),
    ensures
        stream_views(ss)[i] == ss[i]@,
        ss[i].wf(),
{
    model::within_at(stream_views(ss), HDRBUF as int, DATABUF as int, i);
}

impl<const MAX_STREAMS: usize, const HDRBUF: usize, const DATABUF: usize> View for H2Connection<
    MAX_STREAMS,
    HDRBUF,
    DATABUF,
> {
    type V = Conn;

    open spec fn view(&self) -> Conn {
        Conn {
            role: self.role,
            state: self.state,
            local: self.local_settings,
            peer: self.peer_settings,
            streams: stream_views(self.streams@),
            table: self.decoder@,
            send_offset: self.send_offset as int,
            send_window: self.conn_send_fc.window,
            recv_window: self.conn_recv_fc.window,
            pending: self.pending_conn_credit,
            events: self.events@,
            next_stream_id: self.next_stream_id,
            last_peer_stream_id: self.last_peer_stream_id,
            continuation: self.continuation_stream_id,
            settings_sent: self.settings_sent,
            settings_ack_received: self.settings_ack_received,
            peer_settings_received: self.peer_settings_received,
            preface_sent: self.preface_sent,
            preface_validated: self.preface_validated,
            preface_bytes_seen: self.preface_bytes_seen as int,
            goaway_sent: self.goaway_sent,
            timeouts: self.timeout_config,
            last_activity: self.last_activity,
            connection_start: self.connection_start,
            headers_phase_complete: self.headers_phase_complete,
            partial: self.partial_data,
        }
    }
}

impl<const MAX_STREAMS: usize, const HDRBUF: usize, const DATABUF: usize> H2Connection<
    MAX_STREAMS,
    HDRBUF,
    DATABUF,
> {
    /// Everything is within its capacity.
    pub open spec fn wf(&self) -> bool {
        &&& self.decoder.wf()
        &&& self@.valid(MAX_STREAMS as int, HDRBUF as int, DATABUF as int)
    }

    /// The connection together with its buffers.
    pub open spec fn sys<const BUF: usize>(&self, io: IoBufs<BUF>) -> Sys {
        Sys {
            c: self@,
            io: io@,
            lim: Limits {
                streams: MAX_STREAMS as int,
                headers: HDRBUF as int,
                data: DATABUF as int,
                io: BUF as int,
            },
        }
    }

    /// Creates a client-side connection.
    pub fn new_client() -> (r: Self)
        ensures
            r.wf(),
            r@ == Conn::initial(Role::Client, MAX_STREAMS, DATABUF),
    {
        Self::new(Role::Client)
    }

    /// Creates a server-side connection.
    pub fn new_server() -> (r: Self)
        ensures
            r.wf(),
            r@ == Conn::initial(Role::Server, MAX_STREAMS, DATABUF),
    {
        Self::new(Role::Server)
    }

    /// The receive window that is announced is the capacity of a stream's body
    /// buffer, so a peer that keeps to it never has more in flight than fits;
    /// the stream limit that is announced is the real one (RFC 9113 §6.5.2).
    fn new(role: Role) -> (r: Self)
        ensures
            r.wf(),
            r@ == Conn::initial(role, MAX_STREAMS, DATABUF),
    {
        let mut local_settings = H2Settings::default();
        local_settings.initial_window_size = DATABUF as u32;
        local_settings.max_concurrent_streams = MAX_STREAMS as u32;
        let r = H2Connection {
            role,
            state: H2ConnState::WaitingPreface,
            local_settings,
            peer_settings: H2Settings::default(),
            streams: Vec::new(),
            encoder: HpackEncoder::new(),
            decoder: HpackDecoder::new(),
            send_offset: 0,
            conn_send_fc: FlowController::new(DEFAULT_CONNECTION_WINDOW_SIZE),
            conn_recv_fc: FlowController::new(DEFAULT_CONNECTION_WINDOW_SIZE),
            pending_conn_credit: 0,
            events: VecDeque::new(),
            next_stream_id: match role {
                Role::Client => 1,
                Role::Server => 2,
            },
            last_peer_stream_id: 0,
            continuation_stream_id: None,
            settings_sent: false,
            settings_ack_received: false,
            peer_settings_received: false,
            preface_sent: false,
            preface_validated: false,
            preface_bytes_seen: 0,
            goaway_sent: false,
            timeout_config: TimeoutConfig::default(),
            last_activity: 0,
            connection_start: 0,
            headers_phase_complete: false,
            partial_data: None,
        };
        reveal(model::within);
        assert(r@.streams =~= Seq::<StreamModel>::empty());
        assert(r@.events =~= Seq::<H2Event>::empty());
        r
    }

    /// Polls for the next event.
    pub fn poll_event(&mut self) -> (r: Option<H2Event>)
        requires
            old(self).wf(),
        ensures
            final(self).wf(),
            if old(self)@.events.len() == 0 {
                r is None && final(self)@ == old(self)@
            } else {
                r == Some(old(self)@.events[0]) && final(self)@ == (Conn {
                    events: old(self)@.events.skip(1),
                    ..old(self)@
                })
            },
    {
        let r = self.events.pop_front();
        assert(r is Some ==> self.events@ =~= old(self).events@.skip(1));
        r
    }

    /// Pushes an event into the queue. When the queue is full the oldest event
    /// is dropped so that new events are never lost.
    pub(crate) fn push_event(&mut self, event: H2Event)
        requires
            old(self).wf(),
        ensures
            final(self).wf(),
            final(self)@ == (Conn {
                events: model::pushed(old(self)@.events, event),
                ..old(self)@
            }),
    {
        if self.events.len() >= MAX_EVENTS {
            let _ = self.events.pop_front();
            assert(self.events@ =~= old(self).events@.skip(1));
        }
        self.events.push_back(event);
    }

    /// The position of a stream in the table.
    pub(crate) fn find_stream(&self, stream_id: u64) -> (r: Option<usize>)
        ensures
            match r {
                Some(i) => model::find(self@.streams, stream_id) == Some(i as int) && i
                    < self.streams@.len(),
                None => model::find(self@.streams, stream_id) is None,
            },
    {
        let mut i: usize = 0;
        while i < self.streams.len()
            invariant
                i <= self.streams@.len(),
                model::find(self@.streams, stream_id) == model::find_from(
                    self@.streams,
                    stream_id,
                    i as int,
                ),
            decreases self.streams@.len() - i,
        {
            if self.streams[i].id == stream_id {
                return Some(i);
            }
            i = i + 1;
        }
        None
    }

    // ------------------------------------------------------------------
    // Window updates
    // ------------------------------------------------------------------

    /// Sends any recorded receive-window credit whose WINDOW_UPDATE fits in the
    /// send buffer, and applies the credit to the window only then. Credit that
    /// could not be sent stays recorded and adds up. Called from
    /// `generate_output`, so it is tried again on every `poll_output`.
    pub fn flush_window_updates<const BUF: usize>(&mut self, io: &mut IoBufs<BUF>)
        requires
            old(self).wf(),
            old(io).wf(),
        ensures
            final(self).wf(),
            final(io).wf(),
            final(self).sys(*final(io)) == old(self).sys(*old(io)).flushed(),
            old(self)@.recv_window + old(self)@.pending <= MAX_WINDOW_SIZE ==> laws::owed_returned(
                old(self).sys(*old(io)),
                final(self).sys(*final(io)),
            ),
    {
        proof {
            if self@.recv_window + self@.pending <= MAX_WINDOW_SIZE {
                laws::flushing_returns_what_is_owed(self.sys(*io));
            }
        }
        reveal(Sys::flushed);
        let ghost start = self.sys(*io);
        if self.pending_conn_credit > 0 {
            let inc: u32 = self.pending_conn_credit;
            let f: Vec<u8> = frame::frame_to_vec(
                &H2Frame::WindowUpdate { stream_id: 0, increment: inc },
            );
            if io.queue_send(f.as_slice()).is_ok() {
                let _ = self.conn_recv_fc.replenish(inc);
                self.pending_conn_credit = 0;
            }
        }
        assert(self.sys(*io) =~= start.flush_conn());
        let mut i: usize = 0;
        while i < self.streams.len()
            invariant
                i <= self.streams@.len(),
                self.wf(),
                io.wf(),
                self.sys(*io).flush_from(i as int) == start.flushed(),
            decreases self.streams@.len() - i,
        {
            let ghost before = self.sys(*io);
            let ghost streams = self.streams@;
            proof {
                lemma_views_at(self.streams@, i as int);
            }
            if self.streams[i].pending_recv_credit > 0 {
                let id: u64 = self.streams[i].id;
                let inc: u32 = self.streams[i].pending_recv_credit;
                let f: Vec<u8> = frame::frame_to_vec(
                    &H2Frame::WindowUpdate { stream_id: id, increment: inc },
                );
                if io.queue_send(f.as_slice()).is_ok() {
                    self.streams[i].apply_credit();
                    proof {
                        lemma_views_update(streams, i as int, self.streams@[i as int]);
                    }
                }
            }
            assert(self.sys(*io) =~= before.flush_stream(i as int));
            i = i + 1;
        }
    }

    /// Records receive-window credit for the connection and tries to send it.
    pub(crate) fn credit_connection<const BUF: usize>(&mut self, io: &mut IoBufs<BUF>, increment: u32)
        requires
            old(self).wf(),
            old(io).wf(),
        ensures
            final(self).wf(),
            final(io).wf(),
            final(self).sys(*final(io)) == old(self).sys(*old(io)).conn_credited(increment),
    {
        if increment == 0 {
            return;
        }
        self.pending_conn_credit = self.pending_conn_credit.saturating_add(increment);
        self.flush_window_updates(io);
    }

    /// Records receive-window credit for a stream and tries to send it.
    pub(crate) fn credit_stream<const BUF: usize>(
        &mut self,
        io: &mut IoBufs<BUF>,
        stream_id: u64,
        increment: u32,
    )
        requires
            old(self).wf(),
            old(io).wf(),
        ensures
            final(self).wf(),
            final(io).wf(),
            final(self).sys(*final(io)) == old(self).sys(*old(io)).stream_credited(
                stream_id,
                increment,
            ),
    {
        if increment == 0 {
            return;
        }
        match self.find_stream(stream_id) {
            Some(i) => {
                let ghost streams = self.streams@;
                proof {
            lemma_views_at(self.streams@, i as int);
        }
                self.streams[i].credit(increment);
                proof {
                    lemma_views_update(streams, i as int, self.streams@[i as int]);
                }
            },
            None => {},
        }
        self.flush_window_updates(io);
    }

    // ------------------------------------------------------------------
    // Output
    // ------------------------------------------------------------------

    /// Generates pending protocol frames (preface, SETTINGS, WINDOW_UPDATE) into
    /// the send buffer.
    ///
    /// `poll_output` calls this. It is public for stacks where the send buffer
    /// feeds into another layer rather than directly to the network.
    pub fn generate_output<const BUF: usize>(&mut self, io: &mut IoBufs<BUF>)
        requires
            old(self).wf(),
            old(io).wf(),
        ensures
            final(self).wf(),
            final(io).wf(),
            final(self).sys(*final(io)) == old(self).sys(*old(io)).generated(),
    {
        reveal(Sys::generated);
        let ghost start = self.sys(*io);
        if !self.preface_sent {
            if self.role == Role::Client {
                let _ = io.queue_send(&CONNECTION_PREFACE);
            }
            assert(self.sys(*io) =~= start.preface_queued());
            let _ = self.send_initial_settings(io);
            self.preface_sent = true;
        }
        self.flush_window_updates(io);
    }

    fn send_initial_settings<const BUF: usize>(&mut self, io: &mut IoBufs<BUF>) -> (r: Result<
        (),
        Error,
    >)
        requires
            old(self).wf(),
            old(io).wf(),
        ensures
            final(self).wf(),
            final(io).wf(),
            final(self).sys(*final(io)) == old(self).sys(*old(io)).settings_queued(),
            r == old(self).sys(*old(io)).queue_result(
                frame::settings_frame(false, old(self)@.local.payload()),
            ),
    {
        let params: Vec<u8> = self.local_settings.params_to_vec();
        let f: Vec<u8> = frame::frame_to_vec(
            &H2Frame::Settings { ack: false, params: params.as_slice() },
        );
        io.queue_send(f.as_slice())?;
        self.settings_sent = true;
        Ok(())
    }

    /// Pulls the next chunk of outgoing data.
    pub fn poll_output<'a, const BUF: usize>(
        &mut self,
        io: &mut IoBufs<BUF>,
        buf: &'a mut [u8],
    ) -> (r: Option<&'a [u8]>)
        requires
            old(self).wf(),
            old(io).wf(),
        ensures
            bytes::chunk_at_start(old(buf)@, final(buf)@, r),
            final(self).wf(),
            final(io).wf(),
            final(self).sys(*final(io)) == old(self).sys(*old(io)).polled(
                old(buf)@.len() as int,
            ).0,
            match r {
                Some(chunk) => old(self).sys(*old(io)).polled(old(buf)@.len() as int).1 == Some(
                    chunk@,
                ),
                None => old(self).sys(*old(io)).polled(old(buf)@.len() as int).1 is None,
            },
    {
        self.generate_output(io);
        self.take_output(io, buf)
    }

    /// Takes the next chunk of what waits to be sent.
    fn take_output<'a, const BUF: usize>(
        &mut self,
        io: &mut IoBufs<BUF>,
        buf: &'a mut [u8],
    ) -> (r: Option<&'a [u8]>)
        requires
            old(self).wf(),
            old(io).wf(),
        ensures
            bytes::chunk_at_start(old(buf)@, final(buf)@, r),
            final(self).wf(),
            final(io).wf(),
            final(self).sys(*final(io)) == old(self).sys(*old(io)).taken(
                old(buf)@.len() as int,
            ).0,
            match r {
                Some(chunk) => old(self).sys(*old(io)).taken(old(buf)@.len() as int).1 == Some(
                    chunk@,
                ),
                None => old(self).sys(*old(io)).taken(old(buf)@.len() as int).1 is None,
            },
    {
        let ghost s = self.sys(*io);
        if self.send_offset >= io.send_buf.len() {
            return None;
        }
        let avail: usize = io.send_buf.len() - self.send_offset;
        let n: usize = if avail <= buf.len() {
            avail
        } else {
            buf.len()
        };
        let start: usize = self.send_offset;
        let end: usize = start + n;
        bytes::copy_into(buf, 0, &io.send_buf.as_slice()[start..end]);
        self.send_offset = end;
        if self.send_offset >= io.send_buf.len() {
            io.send_buf.clear();
            self.send_offset = 0;
        }
        assert(buf@.subrange(0, n as int) =~= s.io.send.subrange(start as int, end as int));
        Some(&buf[0..n])
    }

    // ------------------------------------------------------------------
    // Streams
    // ------------------------------------------------------------------

    /// Drops the closed streams. Returns how many unread body bytes they held.
    fn drop_closed_streams(&mut self) -> (credit: u32)
        requires
            old(self).wf(),
        ensures
            final(self).wf(),
            final(self)@ == (Conn { streams: model::not_closed(old(self)@.streams), ..old(self)@ }),
            credit == stream::saturated(model::closed_data(old(self)@.streams)),
    {
        let ghost all = self@.streams;
        let ghost mut k: int = 0;
        let mut credit: u32 = 0;
        let mut i: usize = 0;
        proof {
            assert(all.take(0).len() == 0);
            assert(self@.streams =~= model::not_closed(all.take(0)) + all.skip(0));
        }
        while i < self.streams.len()
            invariant
                self.wf(),
                all == old(self)@.streams,
                0 <= k <= all.len(),
                i == model::not_closed(all.take(k)).len(),
                self@ == (Conn { streams: self@.streams, ..old(self)@ }),
                self@.streams == model::not_closed(all.take(k)) + all.skip(k),
                credit == stream::saturated(model::closed_data(all.take(k))),
                model::closed_data(all.take(k)) >= 0,
            decreases all.len() - k,
        {
            let ghost before = self@.streams;
            proof {
                assert(k < all.len());
                assert(before[i as int] == all[k]);
                assert(all.take(k + 1).drop_last() =~= all.take(k));
                assert(all.take(k + 1).last() == all[k]);
                lemma_views_at(self.streams@, i as int);
            }
            if self.streams[i].state == H2StreamState::Closed {
                let n: usize = self.streams[i].data_buf.len();
                let n32: u32 = if n > u32::MAX as usize {
                    u32::MAX
                } else {
                    n as u32
                };
                credit = credit.saturating_add(n32);
                let _ = self.streams.remove(i);
                proof {
                    assert(self@.streams =~= before.remove(i as int));
                    assert(self@.streams =~= model::not_closed(all.take(k + 1)) + all.skip(k + 1));
                    model::within_remove(before, HDRBUF as int, DATABUF as int, i as int);
                }
            } else {
                i = i + 1;
                assert(self@.streams =~= model::not_closed(all.take(k + 1)) + all.skip(k + 1));
            }
            proof {
                k = k + 1;
            }
        }
        proof {
            assert(k == all.len());
            assert(all.take(k) =~= all);
            assert(all.skip(k) =~= Seq::<StreamModel>::empty());
            assert(self@.streams =~= model::not_closed(all));
        }
        credit
    }

    /// Drops the streams that nothing needs any more.
    pub(crate) fn sweep_streams(&mut self)
        requires
            old(self).wf(),
        ensures
            final(self).wf(),
            final(self)@ == (Conn { streams: model::live(old(self)@.streams), ..old(self)@ }),
    {
        let ghost all = self@.streams;
        let ghost mut k: int = 0;
        let mut i: usize = 0;
        proof {
            assert(all.take(0).len() == 0);
            assert(self@.streams =~= model::live(all.take(0)) + all.skip(0));
        }
        while i < self.streams.len()
            invariant
                self.wf(),
                all == old(self)@.streams,
                0 <= k <= all.len(),
                i == model::live(all.take(k)).len(),
                self@ == (Conn { streams: self@.streams, ..old(self)@ }),
                self@.streams == model::live(all.take(k)) + all.skip(k),
            decreases all.len() - k,
        {
            let ghost before = self@.streams;
            proof {
                assert(k < all.len());
                assert(before[i as int] == all[k]);
                assert(all.take(k + 1).drop_last() =~= all.take(k));
                assert(all.take(k + 1).last() == all[k]);
                lemma_views_at(self.streams@, i as int);
            }
            if self.streams[i].state == H2StreamState::Closed && !self.streams[i].data_available {
                let _ = self.streams.remove(i);
                proof {
                    assert(self@.streams =~= before.remove(i as int));
                    assert(self@.streams =~= model::live(all.take(k + 1)) + all.skip(k + 1));
                    model::within_remove(before, HDRBUF as int, DATABUF as int, i as int);
                }
            } else {
                i = i + 1;
                assert(self@.streams =~= model::live(all.take(k + 1)) + all.skip(k + 1));
            }
            proof {
                k = k + 1;
            }
        }
        proof {
            assert(k == all.len());
            assert(all.take(k) =~= all);
            assert(all.skip(k) =~= Seq::<StreamModel>::empty());
            assert(self@.streams =~= model::live(all));
        }
    }

    /// Drops the closed streams where the table is full, and credits their
    /// unread body bytes to the connection.
    fn reclaim_streams<const BUF: usize>(&mut self, io: &mut IoBufs<BUF>)
        requires
            old(self).wf(),
            old(io).wf(),
        ensures
            final(self).wf(),
            final(io).wf(),
            final(self).sys(*final(io)) == old(self).sys(*old(io)).reclaimed(),
    {
        if self.streams.len() >= MAX_STREAMS {
            // Closed streams do not count toward the concurrency that was
            // announced (RFC 9113 §5.1.2) and must not hold capacity against new
            // ones. Unread body bytes that are dropped with them must be credited
            // to the connection (§6.9.1), or its window leaks shut.
            let credit: u32 = self.drop_closed_streams();
            self.credit_connection(io, credit);
        }
    }

    /// Adds a stream to the table.
    fn add_stream(&mut self, stream_id: u64)
        requires
            old(self).wf(),
            old(self)@.streams.len() < MAX_STREAMS,
        ensures
            final(self).wf(),
            final(self)@ == (Conn {
                streams: old(self)@.streams.push(
                    StreamModel::new(
                        stream_id,
                        old(self)@.peer.initial_window_size as i32,
                        old(self)@.local.initial_window_size as i32,
                    ),
                ),
                ..old(self)@
            }),
    {
        let initial_send: i32 = self.peer_settings.initial_window_size as i32;
        let initial_recv: i32 = self.local_settings.initial_window_size as i32;
        self.streams.push(H2Stream::new(stream_id, initial_send, initial_recv));
        proof {
            let added = StreamModel::new(stream_id, initial_send, initial_recv);
            let before = old(self)@.streams;
            assert(self@.streams =~= before.push(added));
            model::within_push(before, HDRBUF as int, DATABUF as int, added);
        }
    }

    /// Ensures that a stream exists, creating it if there is capacity. Returns
    /// `false` if it does not exist and cannot be created: `MAX_STREAMS` live
    /// streams even after reclaiming closed ones.
    pub(crate) fn ensure_stream<const BUF: usize>(&mut self, io: &mut IoBufs<BUF>, stream_id: u64) -> (ok:
        bool)
        requires
            old(self).wf(),
            old(io).wf(),
        ensures
            final(self).wf(),
            final(io).wf(),
            (final(self).sys(*final(io)), ok) == old(self).sys(*old(io)).ensured(stream_id),
    {
        if self.find_stream(stream_id).is_some() {
            return true;
        }
        self.reclaim_streams(io);
        if self.streams.len() >= MAX_STREAMS {
            return false;
        }
        self.add_stream(stream_id);
        true
    }

    // ------------------------------------------------------------------
    // Application API
    // ------------------------------------------------------------------

    /// Sends headers on a new or existing stream.
    ///
    /// The stream is tracked before anything is encoded: HEADERS for a stream
    /// that the table cannot hold would desync stream state from the wire.
    pub fn send_headers<const BUF: usize>(
        &mut self,
        io: &mut IoBufs<BUF>,
        stream_id: u64,
        headers: &[(&[u8], &[u8])],
        end_stream: bool,
    ) -> (r: Result<(), Error>)
        requires
            old(self).wf(),
            old(io).wf(),
        ensures
            final(self).wf(),
            final(io).wf(),
            (final(self).sys(*final(io)), r) == old(self).sys(*old(io)).headers_sent(
                stream_id,
                bytes::pairs(headers@),
                end_stream,
            ),
    {
        if !self.ensure_stream(io, stream_id) {
            return Err(Error::InvalidState);
        }
        write_headers(&self.encoder, io, stream_id, headers, end_stream)?;
        self.start_stream(stream_id, end_stream);
        Ok(())
    }

    /// Opens an idle stream that headers were sent on.
    fn start_stream(&mut self, stream_id: u64, end_stream: bool)
        requires
            old(self).wf(),
        ensures
            final(self).wf(),
            final(self)@ == old(self)@.headers_started(stream_id, end_stream),
    {
        if let Some(i) = self.find_stream(stream_id) {
            let ghost streams = self.streams@;
            proof {
            lemma_views_at(self.streams@, i as int);
        }
            self.streams[i].open();
            if end_stream {
                self.streams[i].send_end_stream();
            }
            proof {
                lemma_views_update(streams, i as int, self.streams@[i as int]);
                assert(self.streams@ =~= streams.update(i as int, self.streams@[i as int]));
            }
        }
    }

    /// Opens a new stream and sends headers. Returns the stream ID.
    pub fn open_stream<const BUF: usize>(
        &mut self,
        io: &mut IoBufs<BUF>,
        headers: &[(&[u8], &[u8])],
        end_stream: bool,
    ) -> (r: Result<u64, Error>)
        requires
            old(self).wf(),
            old(io).wf(),
        ensures
            final(self).wf(),
            final(io).wf(),
            (final(self).sys(*final(io)), r) == old(self).sys(*old(io)).stream_opened(
                bytes::pairs(headers@),
                end_stream,
            ),
    {
        if self.next_stream_id > 0x7fff_ffff {
            return Err(Error::StreamLimitExhausted);
        }
        let stream_id: u64 = self.next_stream_id;
        self.next_stream_id = stream_id + 2;
        self.send_headers(io, stream_id, headers, end_stream)?;
        Ok(stream_id)
    }

    /// How much of `len` bytes may be sent on a stream at once.
    fn sendable<const BUF: usize>(&self, io: &IoBufs<BUF>, stream_id: u64, len: usize) -> (n: usize)
        requires
            self.wf(),
        ensures
            n == self.sys(*io).sendable(stream_id, len as int),
    {
        let by_conn: usize = if self.conn_send_fc.window() > 0 {
            self.conn_send_fc.window() as usize
        } else {
            0
        };
        let by_stream: usize = match self.find_stream(stream_id) {
            Some(i) => if self.streams[i].send_window > 0 {
                self.streams[i].send_window as usize
            } else {
                0
            },
            None => 0,
        };
        let mut n: usize = len;
        if by_conn < n {
            n = by_conn;
        }
        if by_stream < n {
            n = by_stream;
        }
        if (self.peer_settings.max_frame_size as usize) < n {
            n = self.peer_settings.max_frame_size as usize;
        }
        n
    }

    /// Sends data on a stream: as much as the windows and the peer's frame size
    /// allow. Returns how much that was.
    pub fn send_data<const BUF: usize>(
        &mut self,
        io: &mut IoBufs<BUF>,
        stream_id: u64,
        data: &[u8],
        end_stream: bool,
    ) -> (r: Result<usize, Error>)
        requires
            old(self).wf(),
            old(io).wf(),
        ensures
            final(self).wf(),
            final(io).wf(),
            (final(self).sys(*final(io)), r) == old(self).sys(*old(io)).data_sent(
                stream_id,
                data@,
                end_stream,
            ),
    {
        let ghost s = self.sys(*io);
        let at: Option<usize> = self.find_stream(stream_id);
        if let Some(i) = at {
            if !self.streams[i].can_send() {
                return Err(Error::InvalidState);
            }
        }
        let n: usize = self.sendable(io, stream_id, data.len());
        if n == 0 && data.len() > 0 {
            return Err(Error::WouldBlock);
        }
        let ended: bool = end_stream && n == data.len();
        assert(data@.subrange(0, n as int) =~= data@.take(n as int));
        write_data(io, stream_id, &data[0..n], ended)?;
        self.count_sent(stream_id, n, ended);
        Ok(n)
    }

    /// Takes sent data off the send windows.
    fn count_sent(&mut self, stream_id: u64, n: usize, ended: bool)
        requires
            old(self).wf(),
            n == 0 || n <= old(self)@.send_window,
            n > 0 ==> (model::find(old(self)@.streams, stream_id) matches Some(i) && n
                <= old(self)@.streams[i].send_window),
        ensures
            final(self).wf(),
            final(self)@ == old(self)@.data_counted(stream_id, n as int, ended),
    {
        if n > 0 {
            let _ = self.conn_send_fc.consume(n as u32);
        }
        if let Some(i) = self.find_stream(stream_id) {
            let ghost streams = self.streams@;
            proof {
            lemma_views_at(self.streams@, i as int);
        }
            self.streams[i].count_sent(n, ended);
            proof {
                lemma_views_update(streams, i as int, self.streams@[i as int]);
                assert(self.streams@ =~= streams.update(i as int, self.streams@[i as int]));
            }
        }
    }

    /// Reads the received headers of a stream, appending them to `out`. Headers
    /// are read once.
    pub fn recv_headers(&mut self, stream_id: u64, out: &mut Vec<HeaderField>) -> (r: Result<
        (),
        Error,
    >)
        requires
            old(self).wf(),
        ensures
            final(self).wf(),
            final(self)@ == old(self)@.headers_received(stream_id).0,
            bytes::fields(final(out)@) == bytes::fields(old(out)@) + old(self)@.headers_received(
                stream_id,
            ).1,
            r == old(self)@.headers_received(stream_id).2,
    {
        assert(bytes::fields(out@) =~= bytes::fields(out@) + Seq::empty());
        match self.find_stream(stream_id) {
            None => Err(Error::InvalidState),
            Some(i) => {
                proof {
            lemma_views_at(self.streams@, i as int);
        }
                if !self.streams[i].headers_received {
                    return Err(Error::WouldBlock);
                }
                self.decoder.decode(self.streams[i].headers_data.as_slice(), out)?;
                let ghost streams = self.streams@;
                self.streams[i].headers_data.clear();
                self.streams[i].headers_received = false;
                proof {
                    lemma_views_update(streams, i as int, self.streams@[i as int]);
                    assert(self.streams@ =~= streams.update(i as int, self.streams@[i as int]));
                }
                Ok(())
            },
        }
    }

    /// Whether a DATA frame's payload is still being received. Together with a
    /// non-empty receive buffer this says that the peer sends faster than the
    /// body is read.
    pub fn has_partial_data(&self) -> (r: bool)
        ensures
            r == self@.partial is Some,
    {
        self.partial_data.is_some()
    }

    /// Reads received body data of a stream. Returns how much, and whether it
    /// was the last.
    pub fn recv_body<const BUF: usize>(
        &mut self,
        io: &mut IoBufs<BUF>,
        stream_id: u64,
        buf: &mut [u8],
    ) -> (r: Result<(usize, bool), Error>)
        requires
            old(self).wf(),
            old(io).wf(),
        ensures
            final(self).wf(),
            final(io).wf(),
            ({
                let (s, body, result) = old(self).sys(*old(io)).body_received(
                    stream_id,
                    old(buf)@.len() as int,
                );
                &&& final(self).sys(*final(io)) == s
                &&& final(buf)@ == bytes::splice(old(buf)@, 0, body)
                &&& r == result
            }),
    {
        assert(buf@ =~= bytes::splice(buf@, 0, Seq::empty()));
        match self.find_stream(stream_id) {
            None => Err(Error::InvalidState),
            Some(i) => {
                let ghost streams = self.streams@;
                proof {
            lemma_views_at(self.streams@, i as int);
        }
                if self.streams[i].data_buf.is_empty() {
                    if self.streams[i].fin_received {
                        return Ok((0, true));
                    }
                    return Err(Error::WouldBlock);
                }
                let avail: usize = self.streams[i].data_buf.len();
                let n: usize = if avail <= buf.len() {
                    avail
                } else {
                    buf.len()
                };
                assert(streams[i as int]@.data.subrange(0, n as int)
                    =~= streams[i as int]@.data.take(n as int));
                bytes::copy_into(buf, 0, &self.streams[i].data_buf.as_slice()[0..n]);
                let fin: bool = n == avail && self.streams[i].fin_received;
                self.drop_read(i, n);
                let credit: u32 = if n > u32::MAX as usize {
                    u32::MAX
                } else {
                    n as u32
                };
                self.credit_connection(io, credit);
                self.credit_stream(io, stream_id, credit);
                Ok((n, fin))
            },
        }
    }

    /// Drops body bytes of a stream that were read.
    fn drop_read(&mut self, i: usize, n: usize)
        requires
            old(self).wf(),
            i < old(self)@.streams.len(),
            n <= old(self)@.streams[i as int].data.len(),
        ensures
            final(self).wf(),
            final(self)@ == old(self)@.with_stream(
                i as int,
                old(self)@.streams[i as int].read(n as int),
            ),
    {
        let ghost streams = self.streams@;
        proof {
            lemma_views_at(self.streams@, i as int);
        }
        self.streams[i].data_buf.drain_front(n);
        let empty: bool = self.streams[i].data_buf.is_empty();
        self.streams[i].data_available = !empty;
        proof {
            lemma_views_update(streams, i as int, self.streams@[i as int]);
            assert(self.streams@ =~= streams.update(i as int, self.streams@[i as int]));
        }
    }

    /// Sends a GOAWAY frame.
    pub fn send_goaway<const BUF: usize>(&mut self, io: &mut IoBufs<BUF>, error_code: u32) -> (r:
        Result<(), Error>)
        requires
            old(self).wf(),
            old(io).wf(),
        ensures
            final(self).wf(),
            final(io).wf(),
            (final(self).sys(*final(io)), r) == old(self).sys(*old(io)).goaway_sent(error_code),
    {
        let debug: [u8; 0] = [];
        assert(debug@ =~= Seq::<u8>::empty());
        let f: Vec<u8> = frame::frame_to_vec(
            &H2Frame::GoAway {
                last_stream_id: self.last_peer_stream_id,
                error_code,
                debug: &debug,
            },
        );
        io.queue_send(f.as_slice())?;
        self.goaway_sent = true;
        self.state = H2ConnState::Closing;
        Ok(())
    }

    /// Whether the connection is in Active state.
    pub fn is_active(&self) -> (r: bool)
        ensures
            r == self@.state is Active,
    {
        self.state == H2ConnState::Active
    }

    // ------------------------------------------------------------------
    // Timeouts and connection state
    // ------------------------------------------------------------------

    /// Configures timeouts. `now` is the current timestamp in microseconds.
    pub fn set_timeouts(&mut self, config: TimeoutConfig, now: u64)
        requires
            old(self).wf(),
        ensures
            final(self).wf(),
            final(self)@ == (Conn {
                timeouts: config,
                last_activity: now,
                connection_start: now,
                ..old(self)@
            }),
    {
        self.timeout_config = config;
        self.last_activity = now;
        self.connection_start = now;
    }

    /// The earliest deadline at which `handle_timeout` should be called, or
    /// `None` if no timeouts are configured.
    pub fn next_timeout(&self) -> (r: Option<u64>)
        ensures
            r == self@.next_deadline(),
    {
        if self.state == H2ConnState::Closed {
            return None;
        }
        let header: Option<u64> = match self.timeout_config.header_timeout_us {
            Some(us) => if self.headers_phase_complete {
                None
            } else {
                Some(self.connection_start.saturating_add(us))
            },
            None => None,
        };
        let idle: Option<u64> = match self.timeout_config.idle_timeout_us {
            Some(us) => Some(self.last_activity.saturating_add(us)),
            None => None,
        };
        http::earlier_deadline(header, idle)
    }

    /// Checks timeouts. If one fires, queues a GOAWAY frame, closes the
    /// connection, and emits `H2Event::Timeout`.
    pub fn handle_timeout<const BUF: usize>(&mut self, io: &mut IoBufs<BUF>, now: u64)
        requires
            old(self).wf(),
            old(io).wf(),
        ensures
            final(self).wf(),
            final(io).wf(),
            final(self).sys(*final(io)) == old(self).sys(*old(io)).timed(now),
    {
        if let Some(deadline) = self.next_timeout() {
            if now >= deadline {
                let _ = self.send_goaway(io, 0);
                self.state = H2ConnState::Closed;
                self.push_event(H2Event::Timeout);
            }
        }
    }

    /// Whether the connection has been closed (GOAWAY sent or received, or timeout).
    pub fn is_closed(&self) -> (r: bool)
        ensures
            r == (self@.state is Closed || self@.state is Closing),
    {
        self.state == H2ConnState::Closed || self.state == H2ConnState::Closing
    }

    /// Whether the SETTINGS exchange is complete and the connection is usable.
    pub fn is_established(&self) -> (r: bool)
        ensures
            r == self@.state is Active,
    {
        self.state == H2ConnState::Active
    }
}

/// Writes a HEADERS frame to the send buffer.
fn write_headers<const BUF: usize>(
    encoder: &HpackEncoder,
    io: &mut IoBufs<BUF>,
    stream_id: u64,
    headers: &[(&[u8], &[u8])],
    end_stream: bool,
) -> (r: Result<(), Error>)
    requires
        old(io).wf(),
    ensures
        final(io).wf(),
        final(io)@.recv == old(io)@.recv,
        (final(io)@.send, r) == model::headers_written(
            old(io)@.send,
            BUF as int,
            stream_id,
            bytes::pairs(headers@),
            end_stream,
        ),
{
    let ghost before = io@.send;
    let start: usize = io.send_buf.len();
    if BUF - start < FRAME_HEADER_LEN {
        return Err(Error::BufferTooSmall { needed: start.saturating_add(FRAME_HEADER_LEN) });
    }
    let room: usize = BUF - start - FRAME_HEADER_LEN;
    let mut block: Vec<u8> = Vec::new();
    match encoder.encode_block(headers, &mut block, room) {
        Ok(()) => {},
        Err(e) => {
            io.send_buf.pad_to(start + FRAME_HEADER_LEN);
            let _ = io.send_buf.extend_from_slice(block.as_slice());
            io.send_buf.pad_to(BUF);
            return Err(e);
        },
    }
    let flags: u8 = if end_stream {
        FLAG_END_STREAM | FLAG_END_HEADERS
    } else {
        0u8 | FLAG_END_HEADERS
    };
    let head: Vec<u8> = frame::encode_frame_header(
        &H2FrameHeader { length: block.len() as u32, frame_type: FRAME_HEADERS, flags, stream_id },
    );
    let _ = io.send_buf.extend_from_slice(head.as_slice());
    let _ = io.send_buf.extend_from_slice(block.as_slice());
    assert(io.send_buf@ =~= before + frame::frame_bytes(FRAME_HEADERS, flags, stream_id, block@));
    Ok(())
}

/// Writes a DATA frame to the send buffer.
fn write_data<const BUF: usize>(io: &mut IoBufs<BUF>, stream_id: u64, data: &[u8], end: bool) -> (r:
    Result<(), Error>)
    requires
        old(io).wf(),
        data@.len() <= u32::MAX,
    ensures
        final(io).wf(),
        final(io)@.recv == old(io)@.recv,
        if old(io)@.send.len() + 9 + data@.len() > BUF {
            &&& final(io)@.send == old(io)@.send
            &&& r == Err::<(), Error>(
                error::too_small(old(io)@.send.len() + 9 + data@.len() as int),
            )
        } else {
            &&& final(io)@.send == old(io)@.send + model::data_frame(stream_id, data@, end)
            &&& r == Ok::<(), Error>(())
        },
{
    let ghost before = io@.send;
    let start: usize = io.send_buf.len();
    let n: usize = data.len();
    if BUF - start < FRAME_HEADER_LEN || BUF - start - FRAME_HEADER_LEN < n {
        let needed: usize = start.saturating_add(FRAME_HEADER_LEN).saturating_add(n);
        return Err(Error::BufferTooSmall { needed });
    }
    let flags: u8 = if end {
        FLAG_END_STREAM
    } else {
        0
    };
    let head: Vec<u8> = frame::encode_frame_header(
        &H2FrameHeader { length: n as u32, frame_type: FRAME_DATA, flags, stream_id },
    );
    let _ = io.send_buf.extend_from_slice(head.as_slice());
    let _ = io.send_buf.extend_from_slice(data);
    assert(io.send_buf@ =~= before + model::data_frame(stream_id, data@, end));
    Ok(())
}

} // verus!
