//! What an HTTP/2 connection does, as functions from state to state.

use vstd::prelude::*;

use super::connection::{H2ConnState, H2Event, PartialData, Role, CONNECTION_PREFACE, MAX_EVENTS};
use super::flow_control;
use super::frame;
use super::frame::{
    H2FrameHeader, FLAG_ACK, FLAG_END_HEADERS, FLAG_END_STREAM, FLAG_PADDED, FLAG_PRIORITY,
    FRAME_CONTINUATION, FRAME_DATA, FRAME_GOAWAY, FRAME_HEADERS, FRAME_HEADER_LEN, FRAME_PING,
    FRAME_RST_STREAM, FRAME_SETTINGS, FRAME_WINDOW_UPDATE,
};
use super::settings::H2Settings;
use super::stream;
use super::stream::StreamModel;
use crate::bytes;
use crate::bytes::Field;
use crate::error;
use crate::error::{Error, H2Error};
use crate::hpack::codec;
use crate::hpack::codec::Table;
use crate::http;
use crate::http::TimeoutConfig;
use crate::io::Wire;

verus! {

/// The capacities that a connection is built with.
pub struct Limits {
    pub streams: int,
    pub headers: int,
    pub data: int,
    pub io: int,
}

/// What a connection knows.
pub struct Conn {
    pub role: Role,
    pub state: H2ConnState,
    pub local: H2Settings,
    pub peer: H2Settings,
    pub streams: Seq<StreamModel>,
    pub table: Table,
    pub send_offset: int,
    pub send_window: i32,
    pub recv_window: i32,
    /// Connection-level credit that was not sent yet.
    pub pending: u32,
    pub events: Seq<H2Event>,
    pub next_stream_id: u64,
    pub last_peer_stream_id: u64,
    pub continuation: Option<u64>,
    pub settings_sent: bool,
    pub settings_ack_received: bool,
    pub peer_settings_received: bool,
    pub preface_sent: bool,
    pub preface_validated: bool,
    pub preface_bytes_seen: int,
    pub goaway_sent: bool,
    pub timeouts: TimeoutConfig,
    pub last_activity: u64,
    pub connection_start: u64,
    pub headers_phase_complete: bool,
    pub partial: Option<PartialData>,
}

/// A connection with its buffers.
pub struct Sys {
    pub c: Conn,
    pub io: Wire,
    pub lim: Limits,
}

/// What the header of an acceptable DATA frame says.
#[derive(Debug, Clone, Copy)]
pub struct DataHead {
    /// The bytes that the header takes.
    pub header_len: usize,
    /// The connection's receive window behind the frame.
    pub window: i32,
    /// The payload to receive.
    pub partial: PartialData,
}

/// What can be done with the payload of a DATA frame.
pub enum PumpStep {
    /// Nothing for now.
    Wait,
    /// So many bytes go to the stream at this place in the table.
    Deliver(int, int),
    /// So many bytes are dropped.
    Discard(int),
}

/// How one round of reading ends.
pub enum Round {
    /// Nothing more can be done with what was received.
    Stop(Sys),
    /// The connection failed.
    Fail(Sys, Error),
    /// There may be more to read.
    Next(Sys),
}

pub open spec fn smaller(a: int, b: int) -> int {
    if a <= b {
        a
    } else {
        b
    }
}

pub open spec fn protocol_error() -> Error {
    Error::Http2(H2Error::ProtocolError)
}

pub open spec fn frame_size_error() -> Error {
    Error::Http2(H2Error::FrameSizeError)
}

pub open spec fn flow_control_error() -> Error {
    Error::Http2(H2Error::FlowControlError)
}

/// The first stream with this identifier, from `i` on.
pub open spec fn find_from(ss: Seq<StreamModel>, id: u64, i: int) -> Option<int>
    decreases ss.len() - i,
{
    if i < 0 || i >= ss.len() {
        None
    } else if ss[i].id == id {
        Some(i)
    } else {
        find_from(ss, id, i + 1)
    }
}

/// The stream with this identifier.
pub open spec fn find(ss: Seq<StreamModel>, id: u64) -> Option<int> {
    find_from(ss, id, 0)
}

pub proof fn find_from_bounds(ss: Seq<StreamModel>, id: u64, i: int)
    ensures
        match find_from(ss, id, i) {
            Some(k) => 0 <= i <= k < ss.len() && ss[k].id == id && forall|j: int|
                i <= j < k ==> (#[trigger] ss[j]).id != id,
            None => i >= 0 ==> forall|j: int| i <= j < ss.len() ==> (#[trigger] ss[j]).id != id,
        },
    decreases ss.len() - i,
{
    if 0 <= i < ss.len() && ss[i].id != id {
        find_from_bounds(ss, id, i + 1);
    }
}

/// What `find` finds is a stream with the identifier.
pub proof fn find_bounds(ss: Seq<StreamModel>, id: u64)
    ensures
        match find(ss, id) {
            Some(k) => 0 <= k < ss.len() && ss[k].id == id && forall|j: int|
                0 <= j < k ==> (#[trigger] ss[j]).id != id,
            None => forall|j: int| 0 <= j < ss.len() ==> (#[trigger] ss[j]).id != id,
        },
{
    find_from_bounds(ss, id, 0);
}

/// Every stream's buffers are within their capacities.
#[verifier::opaque]
pub open spec fn within(ss: Seq<StreamModel>, hdr_cap: int, data_cap: int) -> bool {
    forall|i: int|
        0 <= i < ss.len() ==> (#[trigger] ss[i]).headers.len() <= hdr_cap && ss[i].data.len()
            <= data_cap
}

/// One of the streams.
pub proof fn within_at(ss: Seq<StreamModel>, hdr_cap: int, data_cap: int, i: int)
    requires
        within(ss, hdr_cap, data_cap),
        0 <= i < ss.len(),
    ensures
        ss[i].headers.len() <= hdr_cap,
        ss[i].data.len() <= data_cap,
{
    reveal(within);
}

/// One stream changes.
pub proof fn within_update(ss: Seq<StreamModel>, hdr_cap: int, data_cap: int, i: int, s: StreamModel)
    requires
        within(ss, hdr_cap, data_cap),
        0 <= i < ss.len(),
        s.headers.len() <= hdr_cap,
        s.data.len() <= data_cap,
    ensures
        within(ss.update(i, s), hdr_cap, data_cap),
{
    reveal(within);
    assert forall|j: int| 0 <= j < ss.len() implies (#[trigger] ss.update(i, s)[j]).headers.len()
        <= hdr_cap && ss.update(i, s)[j].data.len() <= data_cap by {
        if j != i {
            assert(ss.update(i, s)[j] == ss[j]);
        }
    }
}

/// A stream is added.
pub proof fn within_push(ss: Seq<StreamModel>, hdr_cap: int, data_cap: int, s: StreamModel)
    requires
        within(ss, hdr_cap, data_cap),
        s.headers.len() <= hdr_cap,
        s.data.len() <= data_cap,
    ensures
        within(ss.push(s), hdr_cap, data_cap),
{
    reveal(within);
    assert forall|j: int| 0 <= j < ss.len() + 1 implies (#[trigger] ss.push(s)[j]).headers.len()
        <= hdr_cap && ss.push(s)[j].data.len() <= data_cap by {
        if j < ss.len() {
            assert(ss.push(s)[j] == ss[j]);
        }
    }
}

/// A stream is removed.
pub proof fn within_remove(ss: Seq<StreamModel>, hdr_cap: int, data_cap: int, i: int)
    requires
        within(ss, hdr_cap, data_cap),
        0 <= i < ss.len(),
    ensures
        within(ss.remove(i), hdr_cap, data_cap),
{
    reveal(within);
    assert forall|j: int| 0 <= j < ss.len() - 1 implies (#[trigger] ss.remove(i)[j]).headers.len()
        <= hdr_cap && ss.remove(i)[j].data.len() <= data_cap by {
        if j < i {
            assert(ss.remove(i)[j] == ss[j]);
        } else {
            assert(ss.remove(i)[j] == ss[j + 1]);
        }
    }
}

/// An event queue with one more event; the oldest makes room in a full one.
pub open spec fn pushed(events: Seq<H2Event>, e: H2Event) -> Seq<H2Event> {
    if events.len() >= MAX_EVENTS {
        events.skip(1).push(e)
    } else {
        events.push(e)
    }
}

/// Unread body bytes of closed streams.
pub open spec fn closed_data(ss: Seq<StreamModel>) -> int
    decreases ss.len(),
{
    if ss.len() == 0 {
        0
    } else {
        closed_data(ss.drop_last()) + if ss.last().state is Closed {
            ss.last().data.len() as int
        } else {
            0
        }
    }
}

/// The streams that are not closed.
pub open spec fn not_closed(ss: Seq<StreamModel>) -> Seq<StreamModel>
    decreases ss.len(),
{
    if ss.len() == 0 {
        Seq::empty()
    } else if ss.last().state is Closed {
        not_closed(ss.drop_last())
    } else {
        not_closed(ss.drop_last()).push(ss.last())
    }
}

/// The streams that something still needs.
pub open spec fn live(ss: Seq<StreamModel>) -> Seq<StreamModel>
    decreases ss.len(),
{
    if ss.len() == 0 {
        Seq::empty()
    } else if ss.last().live() {
        live(ss.drop_last()).push(ss.last())
    } else {
        live(ss.drop_last())
    }
}

/// The streams after a change of the peer's initial window: their send windows
/// move with it, up to the first that would leave its range.
pub open spec fn windows_moved(ss: Seq<StreamModel>, delta: int, i: int) -> (
    Seq<StreamModel>,
    Result<(), Error>,
)
    decreases ss.len() - i,
{
    if i < 0 || i >= ss.len() {
        (ss, Ok(()))
    } else {
        let w = ss[i].send_window + delta;
        if w < i32::MIN || w > i32::MAX {
            (ss, Err(flow_control_error()))
        } else {
            windows_moved(
                ss.update(i, StreamModel { send_window: w as i32, ..ss[i] }),
                delta,
                i + 1,
            )
        }
    }
}

/// Where the content of a padded or unpadded payload of `len` bytes starts and
/// ends in a frame, or the error if the padding is longer than the payload.
#[verifier::opaque]
pub open spec fn unpadded(recv: Seq<u8>, h: H2FrameHeader) -> Result<(int, int), Error> {
    if !frame::flag_set(h.flags, FLAG_PADDED) {
        Ok((9, 9 + h.length))
    } else if h.length == 0 {
        Err(Error::BufferTooSmall { needed: 1 })
    } else if recv[9] >= h.length {
        Err(Error::InvalidState)
    } else {
        Ok((10, 9 + h.length - recv[9]))
    }
}

/// The header block fragment of a HEADERS frame: where it starts and ends.
#[verifier::opaque]
pub open spec fn fragment(recv: Seq<u8>, h: H2FrameHeader) -> Result<(int, int), Error> {
    match unpadded(recv, h) {
        Err(e) => Err(e),
        Ok((start, end)) => if !frame::flag_set(h.flags, FLAG_PRIORITY) {
            Ok((start, end))
        } else if end - start < 5 {
            Err(Error::BufferTooSmall { needed: 5 })
        } else {
            Ok((start + 5, end))
        },
    }
}

/// A DATA frame.
pub open spec fn data_frame(id: u64, data: Seq<u8>, end: bool) -> Seq<u8> {
    frame::frame_bytes(
        FRAME_DATA,
        if end {
            FLAG_END_STREAM
        } else {
            0
        },
        id,
        data,
    )
}

/// What a HEADERS frame makes of the bytes that wait to be sent.
pub open spec fn headers_written(send: Seq<u8>, cap: int, id: u64, fs: Seq<Field>, end: bool) -> (
    Seq<u8>,
    Result<(), Error>,
) {
    if send.len() + 9 > cap {
        (send, Err(error::too_small(send.len() as int + 9)))
    } else {
        let room = cap - send.len() - 9;
        let (block, missing) = codec::put_all(codec::block_pieces(fs), Seq::empty(), room);
        match missing {
            Some(n) => {
                // The buffer is left full: what fitted of the block, and zeros.
                let zeros = Seq::new(9, |i: int| 0u8);
                let rest = Seq::new((room - block.len()) as nat, |i: int| 0u8);
                (send + zeros + block + rest, Err(error::too_small(n)))
            },
            None => (
                send + frame::frame_bytes(
                    FRAME_HEADERS,
                    if end {
                        FLAG_END_STREAM | FLAG_END_HEADERS
                    } else {
                        0u8 | FLAG_END_HEADERS
                    },
                    id,
                    block,
                ),
                Ok(()),
            ),
        }
    }
}

impl Conn {
    /// A new connection.
    pub open spec fn initial(role: Role, max_streams: usize, data_cap: usize) -> Conn {
        Conn {
            role,
            state: H2ConnState::WaitingPreface,
            local: H2Settings {
                initial_window_size: data_cap as u32,
                max_concurrent_streams: max_streams as u32,
                ..H2Settings::initial()
            },
            peer: H2Settings::initial(),
            streams: Seq::empty(),
            table: Table::initial(),
            send_offset: 0,
            send_window: 65535,
            recv_window: 65535,
            pending: 0,
            events: Seq::empty(),
            next_stream_id: match role {
                Role::Client => 1,
                Role::Server => 2,
            },
            last_peer_stream_id: 0,
            continuation: None,
            settings_sent: false,
            settings_ack_received: false,
            peer_settings_received: false,
            preface_sent: false,
            preface_validated: false,
            preface_bytes_seen: 0,
            goaway_sent: false,
            timeouts: TimeoutConfig::none(),
            last_activity: 0,
            connection_start: 0,
            headers_phase_complete: false,
            partial: None,
        }
    }

    /// Everything is within its capacity.
    pub open spec fn valid(self, max_streams: int, hdr_cap: int, data_cap: int) -> bool {
        &&& self.streams.len() <= max_streams
        &&& within(self.streams, hdr_cap, data_cap)
        &&& self.events.len() <= MAX_EVENTS
        &&& self.peer.valid()
        &&& self.table.valid()
        &&& 0 <= self.preface_bytes_seen <= 24
        &&& 0 <= self.send_offset <= usize::MAX
        &&& self.partial matches Some(pd) ==> pd.data_remaining < 0x100_0000 && pd.pad_remaining
            <= 255
    }

    /// When the first headers have to be there.
    pub open spec fn header_deadline(self) -> Option<u64> {
        match self.timeouts.header_timeout_us {
            Some(us) if !self.headers_phase_complete => Some(
                http::deadline(self.connection_start, us),
            ),
            _ => None,
        }
    }

    /// When something has to have been received.
    pub open spec fn idle_deadline(self) -> Option<u64> {
        match self.timeouts.idle_timeout_us {
            Some(us) => Some(http::deadline(self.last_activity, us)),
            None => None,
        }
    }

    /// The earliest deadline.
    pub open spec fn next_deadline(self) -> Option<u64> {
        if self.state is Closed {
            None
        } else {
            http::earlier(self.header_deadline(), self.idle_deadline())
        }
    }

    /// With another stream at `i`.
    pub open spec fn with_stream(self, i: int, s: StreamModel) -> Conn {
        Conn { streams: self.streams.update(i, s), ..self }
    }

    /// Headers were sent on a stream, and END_STREAM with them if `end`.
    pub open spec fn headers_started(self, id: u64, end: bool) -> Conn {
        match find(self.streams, id) {
            Some(i) => self.with_stream(i, self.streams[i].opened().send_ended(end)),
            None => self,
        }
    }

    /// `n` bytes were sent on a stream, and END_STREAM with them if `end`.
    pub open spec fn data_counted(self, id: u64, n: int, end: bool) -> Conn {
        let c = Conn { send_window: (self.send_window - n) as i32, ..self };
        match find(self.streams, id) {
            Some(i) => c.with_stream(i, self.streams[i].data_sent(n, end)),
            None => c,
        }
    }

    /// What reading the header block of a stream gives: the connection after
    /// it, the fields that were read, and the result.
    pub open spec fn headers_received(self, id: u64) -> (Conn, Seq<Field>, Result<(), Error>) {
        match find(self.streams, id) {
            None => (self, Seq::empty(), Err(Error::InvalidState)),
            Some(i) => if !self.streams[i].headers_received {
                (self, Seq::empty(), Err(Error::WouldBlock))
            } else {
                let d = codec::decode_block(self.table, self.streams[i].headers);
                match d.result {
                    Err(e) => (Conn { table: d.table, ..self }, d.fields, Err(e)),
                    Ok(_) => (
                        Conn {
                            table: d.table,
                            streams: self.streams.update(i, self.streams[i].headers_read()),
                            ..self
                        },
                        d.fields,
                        Ok(()),
                    ),
                }
            },
        }
    }
}

impl Sys {
    /// Connection and buffers are within their capacities.
    pub open spec fn valid(self) -> bool {
        &&& self.c.valid(self.lim.streams, self.lim.headers, self.lim.data)
        &&& self.io.recv.len() <= self.lim.io
        &&& self.io.send.len() <= self.lim.io
    }

    pub open spec fn with_event(self, e: H2Event) -> Sys {
        Sys { c: Conn { events: pushed(self.c.events, e), ..self.c }, ..self }
    }

    /// With an event, if `cond`.
    pub open spec fn with_event_if(self, cond: bool, e: H2Event) -> Sys {
        if cond {
            self.with_event(e)
        } else {
            self
        }
    }

    pub open spec fn with_streams(self, streams: Seq<StreamModel>) -> Sys {
        Sys { c: Conn { streams, ..self.c }, ..self }
    }

    pub open spec fn with_stream(self, i: int, s: StreamModel) -> Sys {
        self.with_streams(self.c.streams.update(i, s))
    }

    /// Whether bytes can be queued.
    pub open spec fn fits(self, data: Seq<u8>) -> bool {
        self.io.send.len() + data.len() <= self.lim.io
    }

    pub open spec fn queued(self, data: Seq<u8>) -> Sys {
        Sys { io: self.io.queued(data, self.lim.io), ..self }
    }

    pub open spec fn queue_result(self, data: Seq<u8>) -> Result<(), Error> {
        self.io.queue_result(data, self.lim.io)
    }

    pub open spec fn drained(self, n: int) -> Sys {
        Sys { io: self.io.drained(n), ..self }
    }

    // Window updates.

    /// The connection-level credit is sent, if the frame fits.
    pub open spec fn flush_conn(self) -> Sys {
        let f = frame::window_update_frame(0, self.c.pending);
        if self.c.pending > 0 && self.fits(f) {
            let s = self.queued(f);
            Sys {
                c: Conn {
                    recv_window: match flow_control::replenished(
                        self.c.recv_window,
                        self.c.pending,
                    ) {
                        Ok(w) => w,
                        Err(_) => self.c.recv_window,
                    },
                    pending: 0,
                    ..s.c
                },
                ..s
            }
        } else {
            self
        }
    }

    /// The credit of stream `i` is sent, if the frame fits.
    pub open spec fn flush_stream(self, i: int) -> Sys {
        let s = self.c.streams[i];
        let f = frame::window_update_frame(s.id, s.pending);
        if s.pending > 0 && self.fits(f) {
            self.queued(f).with_stream(i, s.credit_sent())
        } else {
            self
        }
    }

    /// The credit of the streams from `i` on is sent.
    pub open spec fn flush_from(self, i: int) -> Sys
        decreases self.c.streams.len() - i,
    {
        if i < 0 || i >= self.c.streams.len() {
            self
        } else {
            self.flush_stream(i).flush_from(i + 1)
        }
    }

    /// All credit whose frames fit is sent.
    #[verifier::opaque]
    pub open spec fn flushed(self) -> Sys {
        self.flush_conn().flush_from(0)
    }

    /// Connection-level credit for `n` bytes is recorded, and sent if it fits.
    pub open spec fn conn_credited(self, n: u32) -> Sys {
        if n == 0 {
            self
        } else {
            Sys {
                c: Conn { pending: stream::saturated(self.c.pending + n), ..self.c },
                ..self
            }.flushed()
        }
    }

    /// Credit for `n` bytes on a stream is recorded, and sent if it fits.
    pub open spec fn stream_credited(self, id: u64, n: u32) -> Sys {
        if n == 0 {
            self
        } else {
            match find(self.c.streams, id) {
                Some(i) => self.with_stream(i, self.c.streams[i].credited(n)).flushed(),
                None => self.flushed(),
            }
        }
    }

    /// Credit for `n` bytes of a stream is recorded with it and the connection.
    pub open spec fn both_credited(self, id: u64, n: u32) -> Sys {
        self.conn_credited(n).stream_credited(id, n)
    }

    // Output.

    /// The client's preface is queued, if it fits.
    pub open spec fn preface_queued(self) -> Sys {
        if self.c.role is Client {
            self.queued(CONNECTION_PREFACE@)
        } else {
            self
        }
    }

    /// The initial SETTINGS are queued, if they fit.
    pub open spec fn settings_queued(self) -> Sys {
        let f = frame::settings_frame(false, self.c.local.payload());
        if self.fits(f) {
            let s = self.queued(f);
            Sys { c: Conn { settings_sent: true, ..s.c }, ..s }
        } else {
            self
        }
    }

    /// Preface and SETTINGS are queued once, and credit that was held back.
    #[verifier::opaque]
    pub open spec fn generated(self) -> Sys {
        if self.c.preface_sent {
            self.flushed()
        } else {
            let s = self.preface_queued().settings_queued();
            Sys { c: Conn { preface_sent: true, ..s.c }, ..s }.flushed()
        }
    }

    /// The next at most `room` bytes of what waits to be sent are taken.
    pub open spec fn taken(self, room: int) -> (Sys, Option<Seq<u8>>) {
        let start = self.c.send_offset;
        if start >= self.io.send.len() {
            (self, None)
        } else {
            let end = start + smaller(self.io.send.len() - start, room);
            let chunk = self.io.send.subrange(start, end);
            if end >= self.io.send.len() {
                (
                    Sys {
                        c: Conn { send_offset: 0, ..self.c },
                        io: Wire { send: Seq::empty(), ..self.io },
                        ..self
                    },
                    Some(chunk),
                )
            } else {
                (Sys { c: Conn { send_offset: end, ..self.c }, ..self }, Some(chunk))
            }
        }
    }

    /// The next at most `room` bytes to send.
    pub open spec fn polled(self, room: int) -> (Sys, Option<Seq<u8>>) {
        self.generated().taken(room)
    }

    // Streams.

    /// Closed streams make room when the table is full. Their unread body
    /// bytes are credited to the connection.
    pub open spec fn reclaimed(self) -> Sys {
        if self.c.streams.len() >= self.lim.streams {
            self.with_streams(not_closed(self.c.streams)).conn_credited(
                stream::saturated(closed_data(self.c.streams)),
            )
        } else {
            self
        }
    }

    /// The stream exists, where it did or where there is room for it.
    pub open spec fn ensured(self, id: u64) -> (Sys, bool) {
        if find(self.c.streams, id) is Some {
            (self, true)
        } else {
            let s = self.reclaimed();
            if s.c.streams.len() >= s.lim.streams {
                (s, false)
            } else {
                (
                    s.with_streams(
                        s.c.streams.push(
                            StreamModel::new(
                                id,
                                s.c.peer.initial_window_size as i32,
                                s.c.local.initial_window_size as i32,
                            ),
                        ),
                    ),
                    true,
                )
            }
        }
    }

    // Sending.

    /// Headers are sent on a stream.
    pub open spec fn headers_sent(self, id: u64, fs: Seq<Field>, end: bool) -> (
        Sys,
        Result<(), Error>,
    ) {
        let (s, ok) = self.ensured(id);
        if !ok {
            (s, Err(Error::InvalidState))
        } else {
            let (send, r) = headers_written(s.io.send, s.lim.io, id, fs, end);
            let io = Wire { send, ..s.io };
            match r {
                Err(e) => (Sys { io, ..s }, Err(e)),
                Ok(()) => (Sys { c: s.c.headers_started(id, end), io, ..s }, Ok(())),
            }
        }
    }

    /// A new stream is opened with headers.
    pub open spec fn stream_opened(self, fs: Seq<Field>, end: bool) -> (Sys, Result<u64, Error>) {
        let id = self.c.next_stream_id;
        if id > 0x7fff_ffff {
            (self, Err(Error::StreamLimitExhausted))
        } else {
            let s = Sys { c: Conn { next_stream_id: (id + 2) as u64, ..self.c }, ..self };
            match s.headers_sent(id, fs, end) {
                (t, Ok(())) => (t, Ok(id)),
                (t, Err(e)) => (t, Err(e)),
            }
        }
    }

    /// How much of `len` bytes may be sent on a stream at once.
    pub open spec fn sendable(self, id: u64, len: int) -> int {
        let by_conn = if self.c.send_window > 0 {
            self.c.send_window as int
        } else {
            0
        };
        let by_stream = match find(self.c.streams, id) {
            Some(i) => if self.c.streams[i].send_window > 0 {
                self.c.streams[i].send_window as int
            } else {
                0
            },
            None => 0,
        };
        smaller(smaller(smaller(len, by_conn), by_stream), self.c.peer.max_frame_size as int)
    }

    /// Data is sent on a stream: as much as windows and frame size allow.
    pub open spec fn data_sent(self, id: u64, data: Seq<u8>, end: bool) -> (
        Sys,
        Result<usize, Error>,
    ) {
        let at = find(self.c.streams, id);
        let n = self.sendable(id, data.len() as int);
        if at is Some && !self.c.streams[at->0].state.sendable() {
            (self, Err(Error::InvalidState))
        } else if n == 0 && data.len() > 0 {
            (self, Err(Error::WouldBlock))
        } else if self.io.send.len() + 9 + n > self.lim.io {
            (self, Err(error::too_small(self.io.send.len() + 9 + n)))
        } else {
            let ended = end && n == data.len();
            let f = data_frame(id, data.take(n), ended);
            (
                Sys {
                    c: self.c.data_counted(id, n, ended),
                    io: Wire { send: self.io.send + f, ..self.io },
                    ..self
                },
                Ok(n as usize),
            )
        }
    }

    /// A GOAWAY frame is sent.
    pub open spec fn goaway_sent(self, code: u32) -> (Sys, Result<(), Error>) {
        let f = frame::goaway_frame(self.c.last_peer_stream_id, code, Seq::empty());
        match self.queue_result(f) {
            Ok(()) => {
                let s = self.queued(f);
                (
                    Sys {
                        c: Conn { goaway_sent: true, state: H2ConnState::Closing, ..s.c },
                        ..s
                    },
                    Ok(()),
                )
            },
            Err(e) => (self, Err(e)),
        }
    }

    // Reading by the application.

    /// Body bytes of a stream are read into a buffer of `room` bytes: the
    /// connection after it, the bytes, and the count with whether it was all.
    pub open spec fn body_received(self, id: u64, room: int) -> (
        Sys,
        Seq<u8>,
        Result<(usize, bool), Error>,
    ) {
        match find(self.c.streams, id) {
            None => (self, Seq::empty(), Err(Error::InvalidState)),
            Some(i) => {
                let st = self.c.streams[i];
                if st.data.len() == 0 {
                    if st.fin_received {
                        (self, Seq::empty(), Ok((0usize, true)))
                    } else {
                        (self, Seq::empty(), Err(Error::WouldBlock))
                    }
                } else {
                    let n = smaller(st.data.len() as int, room);
                    (
                        self.with_stream(i, st.read(n)).both_credited(id, stream::saturated(n)),
                        st.data.take(n),
                        Ok((n as usize, n == st.data.len() && st.fin_received)),
                    )
                }
            },
        }
    }

    // Receiving: DATA frames.

    /// What can be done with the payload of a DATA frame: as much as was received,
    /// and as its stream has room for, goes to the stream. Payload for a stream
    /// that is gone is dropped.
    #[verifier::opaque]
    pub open spec fn pump_step(self, pd: PartialData) -> PumpStep {
        let avail = self.io.recv.len() as int;
        if pd.data_remaining == 0 || avail == 0 {
            PumpStep::Wait
        } else {
            match find(self.c.streams, pd.stream_id) {
                Some(i) if pd.deliver => {
                    let n = smaller(
                        smaller(pd.data_remaining as int, avail),
                        self.lim.data - self.c.streams[i].data.len(),
                    );
                    if n <= 0 {
                        PumpStep::Wait
                    } else {
                        PumpStep::Deliver(i, n)
                    }
                },
                _ => PumpStep::Discard(smaller(pd.data_remaining as int, avail)),
            }
        }
    }

    /// `n` payload bytes go to the stream at `i`.
    pub open spec fn payload_delivered(self, pd: PartialData, i: int, n: int) -> Sys {
        self.with_stream(i, self.c.streams[i].delivered(self.io.recv.take(n))).drained(
            n,
        ).with_event(H2Event::Data(pd.stream_id))
    }

    /// `n` payload bytes are dropped, and credited to the connection.
    pub open spec fn payload_discarded(self, n: int) -> Sys {
        self.drained(n).conn_credited(n as u32)
    }

    /// The payload of a DATA frame goes on.
    pub open spec fn payload_pumped(self, pd: PartialData) -> (Sys, PartialData) {
        match self.pump_step(pd) {
            PumpStep::Wait => (self, pd),
            PumpStep::Deliver(i, n) => (
                self.payload_delivered(pd, i, n),
                PartialData { data_remaining: (pd.data_remaining - n) as usize, ..pd },
            ),
            PumpStep::Discard(n) => (
                self.payload_discarded(n),
                PartialData {
                    data_remaining: (pd.data_remaining - n) as usize,
                    deliver: false,
                    ..pd
                },
            ),
        }
    }

    /// Padding behind a payload that was taken in whole is dropped.
    pub open spec fn padding_pumped(self, pd: PartialData) -> (Sys, PartialData) {
        if pd.data_remaining == 0 && pd.pad_remaining > 0 {
            let n = smaller(pd.pad_remaining as int, self.io.recv.len() as int);
            (
                self.drained(n),
                PartialData { pad_remaining: (pd.pad_remaining - n) as usize, ..pd },
            )
        } else {
            (self, pd)
        }
    }

    /// What is left of a DATA frame is kept, or nothing is left.
    pub open spec fn with_partial(self, partial: Option<PartialData>) -> Sys {
        Sys { c: Conn { partial, ..self.c }, ..self }
    }

    /// A stream's DATA frame was taken in whole: the stream becomes readable, and
    /// ended if the frame says so.
    #[verifier::opaque]
    pub open spec fn stream_data_ended(self, id: u64, end: bool) -> Sys {
        match find(self.c.streams, id) {
            Some(i) => self.with_stream(i, self.c.streams[i].data_ended(end)),
            None => self,
        }.with_event_if(end, H2Event::Finished(id))
    }

    /// A DATA frame ends, if it was taken in whole.
    pub open spec fn frame_ended(self, pd: PartialData) -> Sys {
        if pd.data_remaining > 0 || pd.pad_remaining > 0 {
            self.with_partial(Some(pd))
        } else if pd.deliver {
            self.with_partial(None).stream_data_ended(pd.stream_id, pd.end_stream)
        } else {
            self.with_partial(None)
        }
    }

    /// The DATA frame that is being received goes on.
    pub open spec fn pumped(self) -> Sys {
        match self.c.partial {
            None => self,
            Some(pd) => {
                let (s, pd1) = self.payload_pumped(pd);
                let (t, pd2) = s.padding_pumped(pd1);
                t.frame_ended(pd2)
            },
        }
    }

    /// How the header of a DATA frame is judged.
    #[verifier::opaque]
    pub open spec fn data_verdict(self, h: H2FrameHeader) -> Result<Option<DataHead>, Error> {
        let recv = self.io.recv;
        let header_len = if frame::flag_set(h.flags, FLAG_PADDED) {
            10int
        } else {
            9int
        };
        if h.stream_id == 0 {
            Err(protocol_error())
        } else if recv.len() < header_len {
            Ok(None)
        } else {
            match unpadded(recv, h) {
                Err(e) => Err(e),
                Ok((start, end)) => {
                    let n = end - start;
                    let at = find(self.c.streams, h.stream_id);
                    if self.c.settings_ack_received && at is Some && n
                        > self.c.streams[at->0].recv_window {
                        Err(flow_control_error())
                    } else {
                        match flow_control::consumed(self.c.recv_window, n as u32) {
                            Err(e) => Err(e),
                            Ok(w) => Ok(
                                Some(
                                    DataHead {
                                        header_len: header_len as usize,
                                        window: w,
                                        partial: PartialData {
                                            stream_id: h.stream_id,
                                            end_stream: frame::flag_set(h.flags, FLAG_END_STREAM),
                                            data_remaining: n as usize,
                                            pad_remaining: (9 + h.length - end) as usize,
                                            deliver: at is Some,
                                        },
                                    },
                                ),
                            ),
                        }
                    }
                },
            }
        }
    }

    /// The payload of a DATA frame begins: it counts against the connection's
    /// receive window at once.
    pub open spec fn data_begun(self, d: DataHead) -> Sys {
        Sys {
            c: Conn { recv_window: d.window, partial: Some(d.partial), ..self.c },
            ..self.drained(d.header_len as int)
        }
    }

    /// The header of a DATA frame is received.
    pub open spec fn on_data(self, h: H2FrameHeader) -> Round {
        match self.data_verdict(h) {
            Err(e) => Round::Fail(self, e),
            Ok(None) => Round::Stop(self),
            Ok(Some(d)) => Round::Next(self.data_begun(d)),
        }
    }

    // Receiving: other frames. The frame stands at the start of the received
    // bytes and is there whole.

    /// The payload of the frame at the start of the received bytes.
    pub open spec fn payload(self, h: H2FrameHeader) -> Seq<u8> {
        self.io.recv.subrange(9, 9 + h.length)
    }

    /// How a HEADERS frame is judged: where its header block fragment starts and
    /// ends. A new stream must be a client's, with an odd identifier, and come to
    /// a server (RFC 9113 §5.1.1).
    #[verifier::opaque]
    pub open spec fn headers_verdict(self, h: H2FrameHeader) -> Result<(int, int), Error> {
        if h.stream_id == 0 {
            Err(protocol_error())
        } else {
            match fragment(self.io.recv, h) {
                Err(e) => Err(e),
                Ok(range) => if find(self.c.streams, h.stream_id) is None && !(self.c.role is Server
                    && h.stream_id % 2 == 1) {
                    Err(protocol_error())
                } else {
                    Ok(range)
                },
            }
        }
    }

    /// The peer used a stream identifier.
    pub open spec fn peer_id_seen(self, id: u64) -> Sys {
        Sys {
            c: Conn {
                last_peer_stream_id: if self.c.last_peer_stream_id >= id {
                    self.c.last_peer_stream_id
                } else {
                    id
                },
                ..self.c
            },
            ..self
        }
    }

    #[verifier::opaque]
    pub open spec fn on_headers(self, h: H2FrameHeader) -> (Sys, Result<(), Error>) {
        match self.headers_verdict(h) {
            Err(e) => (self, Err(e)),
            Ok((start, end)) => {
                let (s, ok) = self.peer_id_seen(h.stream_id).ensured(h.stream_id);
                if !ok {
                    (s, Err(protocol_error()))
                } else {
                    s.headers_stored(
                        h.stream_id,
                        self.io.recv.subrange(start, end),
                        frame::flag_set(h.flags, FLAG_END_HEADERS),
                        frame::flag_set(h.flags, FLAG_END_STREAM),
                    )
                }
            },
        }
    }

    /// The first fragment of a header block is stored with its stream.
    pub open spec fn headers_stored(
        self,
        id: u64,
        frag: Seq<u8>,
        end_headers: bool,
        end_stream: bool,
    ) -> (Sys, Result<(), Error>) {
        let i = find(self.c.streams, id)->0;
        let st = self.c.streams[i].headers_begun();
        if frag.len() > self.lim.headers {
            (self.with_stream(i, st), Err(Error::Http2(H2Error::EnhanceYourCalm)))
        } else {
            (
                self.with_stream(
                    i,
                    st.headers_grown(frag, end_headers).recv_ended(end_stream),
                ).headers_signalled(id, end_headers, end_stream),
                Ok(()),
            )
        }
    }

    /// The application is told of headers that are complete, or more of them is
    /// expected; and it is told of the end of the stream.
    pub open spec fn headers_signalled(self, id: u64, end_headers: bool, end_stream: bool) -> Sys {
        let t = if end_headers {
            self.with_event(H2Event::Headers(id))
        } else {
            Sys { c: Conn { continuation: Some(id), ..self.c }, ..self }
        };
        t.with_event_if(end_stream, H2Event::Finished(id))
    }

    /// More of a header block is stored with its stream.
    pub open spec fn headers_continued(self, i: int, id: u64, more: Seq<u8>, end: bool) -> Sys {
        let s = self.with_stream(i, self.c.streams[i].headers_grown(more, end));
        if end {
            Sys { c: Conn { continuation: None, ..s.c }, ..s }.with_event(H2Event::Headers(id))
        } else {
            s
        }
    }

    #[verifier::opaque]
    pub open spec fn on_continuation(self, h: H2FrameHeader) -> (Sys, Result<(), Error>) {
        if h.stream_id == 0 {
            (self, Err(protocol_error()))
        } else {
            match find(self.c.streams, h.stream_id) {
                None => (self, Ok(())),
                Some(i) => {
                    if self.c.streams[i].headers.len() + h.length > self.lim.headers {
                        (self, Err(Error::Http2(H2Error::EnhanceYourCalm)))
                    } else {
                        (
                            self.headers_continued(
                                i,
                                h.stream_id,
                                self.payload(h),
                                frame::flag_set(h.flags, FLAG_END_HEADERS),
                            ),
                            Ok(()),
                        )
                    }
                },
            }
        }
    }

    /// The settings exchange is complete.
    pub open spec fn activated(self) -> Sys {
        Sys {
            c: Conn { state: H2ConnState::Active, headers_phase_complete: true, ..self.c },
            ..self
        }.with_event(H2Event::Connected)
    }

    /// Our settings are acknowledged.
    pub open spec fn settings_acked(self) -> Sys {
        let s = Sys { c: Conn { settings_ack_received: true, ..self.c }, ..self };
        if s.c.peer_settings_received && s.c.state is WaitingSettings {
            s.activated()
        } else {
            s
        }
    }

    #[verifier::opaque]
    pub open spec fn on_settings(self, h: H2FrameHeader) -> (Sys, Result<(), Error>) {
        if h.stream_id != 0 {
            (self, Err(protocol_error()))
        } else if !frame::flag_set(h.flags, FLAG_ACK) {
            self.settings_received(self.payload(h))
        } else if h.length != 0 {
            (self, Err(frame_size_error()))
        } else {
            (self.settings_acked(), Ok(()))
        }
    }

    /// The peer's settings are received. What was applied before an error stays.
    pub open spec fn settings_received(self, payload: Seq<u8>) -> (Sys, Result<(), Error>) {
        let (peer, r) = self.c.peer.with_payload(payload);
        let s = Sys { c: Conn { peer, ..self.c }, ..self };
        match r {
            Err(e) => (s, Err(e)),
            Ok(()) => Sys {
                c: Conn { peer_settings_received: true, ..s.c },
                ..s
            }.settings_accepted(peer.initial_window_size - self.c.peer.initial_window_size),
        }
    }

    /// The connection becomes active, if it waited for settings.
    pub open spec fn activated_if_waiting(self) -> Sys {
        if self.c.state is WaitingPreface || self.c.state is WaitingSettings {
            self.activated()
        } else {
            self
        }
    }

    /// The peer's settings are acknowledged and take effect.
    pub open spec fn settings_accepted(self, delta: int) -> (Sys, Result<(), Error>) {
        let ack = frame::settings_frame(true, Seq::empty());
        match self.queue_result(ack) {
            Err(e) => (self, Err(e)),
            Ok(()) => {
                let s = self.queued(ack).activated_if_waiting();
                let (streams, r) = windows_moved(s.c.streams, delta, 0);
                if delta == 0 {
                    (s, Ok(()))
                } else {
                    (s.with_streams(streams), r)
                }
            },
        }
    }

    /// How a WINDOW_UPDATE frame is judged: the increment.
    #[verifier::opaque]
    pub open spec fn increment(self, h: H2FrameHeader) -> Result<u32, Error> {
        let inc = bytes::read31(self.io.recv, 9) as u32;
        if h.length != 4 {
            Err(Error::InvalidState)
        } else if inc == 0 {
            Err(protocol_error())
        } else {
            Ok(inc)
        }
    }

    #[verifier::opaque]
    pub open spec fn on_window_update(self, h: H2FrameHeader) -> (Sys, Result<(), Error>) {
        match self.increment(h) {
            Err(e) => (self, Err(e)),
            Ok(inc) => if h.stream_id == 0 {
                match flow_control::replenished(self.c.send_window, inc) {
                    Ok(w) => (Sys { c: Conn { send_window: w, ..self.c }, ..self }, Ok(())),
                    Err(e) => (self, Err(e)),
                }
            } else {
                self.stream_window_grown(h.stream_id, inc)
            },
        }
    }

    /// The peer gave credit for a stream.
    pub open spec fn stream_window_grown(self, id: u64, inc: u32) -> (Sys, Result<(), Error>) {
        match find(self.c.streams, id) {
            None => (self, Ok(())),
            Some(i) => match flow_control::replenished(self.c.streams[i].send_window, inc) {
                Ok(w) => (
                    self.with_stream(i, StreamModel { send_window: w, ..self.c.streams[i] }),
                    Ok(()),
                ),
                Err(e) => (self, Err(e)),
            },
        }
    }

    #[verifier::opaque]
    pub open spec fn on_ping(self, h: H2FrameHeader) -> (Sys, Result<(), Error>) {
        if h.stream_id != 0 {
            (self, Err(protocol_error()))
        } else if h.length != 8 {
            (self, Err(frame_size_error()))
        } else if frame::flag_set(h.flags, FLAG_ACK) {
            (self, Ok(()))
        } else {
            let f = frame::ping_frame(self.payload(h), true);
            (self.queued(f), self.queue_result(f))
        }
    }

    #[verifier::opaque]
    pub open spec fn on_goaway(self, h: H2FrameHeader) -> (Sys, Result<(), Error>) {
        if h.stream_id != 0 {
            (self, Err(Error::InvalidState))
        } else if h.length < 8 {
            (self, Err(Error::BufferTooSmall { needed: 8 }))
        } else {
            (
                Sys { c: Conn { state: H2ConnState::Closing, ..self.c }, ..self }.with_event(
                    H2Event::GoAway(
                        bytes::read31(self.io.recv, 9) as u64,
                        bytes::read32(self.io.recv, 13) as u32,
                    ),
                ),
                Ok(()),
            )
        }
    }

    #[verifier::opaque]
    pub open spec fn on_rst_stream(self, h: H2FrameHeader) -> (Sys, Result<(), Error>) {
        if h.stream_id == 0 || h.length != 4 {
            (self, Err(Error::InvalidState))
        } else {
            (
                self.stream_dropped(h.stream_id).with_event(
                    H2Event::StreamReset(h.stream_id, bytes::read32(self.io.recv, 9) as u32),
                ),
                Ok(()),
            )
        }
    }

    /// A stream is reset, and its unread body bytes are credited to the
    /// connection (RFC 9113 §6.9.1).
    pub open spec fn stream_dropped(self, id: u64) -> Sys {
        match find(self.c.streams, id) {
            Some(i) => self.with_stream(i, self.c.streams[i].dropped()).conn_credited(
                stream::saturated(self.c.streams[i].data.len() as int),
            ),
            None => self,
        }
    }

    /// A frame other than DATA is received. Unknown types, PRIORITY and
    /// PUSH_PROMISE are ignored.
    #[verifier::opaque]
    pub open spec fn on_frame(self, h: H2FrameHeader) -> (Sys, Result<(), Error>) {
        if h.frame_type == FRAME_HEADERS {
            self.on_headers(h)
        } else if h.frame_type == FRAME_SETTINGS {
            self.on_settings(h)
        } else if h.frame_type == FRAME_WINDOW_UPDATE {
            self.on_window_update(h)
        } else if h.frame_type == FRAME_PING {
            self.on_ping(h)
        } else if h.frame_type == FRAME_GOAWAY {
            self.on_goaway(h)
        } else if h.frame_type == FRAME_RST_STREAM {
            self.on_rst_stream(h)
        } else if h.frame_type == FRAME_CONTINUATION {
            self.on_continuation(h)
        } else {
            (self, Ok(()))
        }
    }

    /// One round: a DATA frame goes on, or the next frame is read.
    pub open spec fn round(self) -> Round {
        let recv = self.io.recv;
        if self.c.partial is Some {
            let s = self.pumped();
            if s.c.partial is Some {
                Round::Stop(s)
            } else {
                Round::Next(s)
            }
        } else if recv.len() < FRAME_HEADER_LEN {
            Round::Stop(self)
        } else {
            let h = frame::header_at(recv);
            if h.length > self.c.local.max_frame_size {
                Round::Fail(self, frame_size_error())
            } else if self.c.continuation is Some && (h.frame_type != FRAME_CONTINUATION
                || h.stream_id != self.c.continuation->0) {
                Round::Fail(self, protocol_error())
            } else if h.frame_type == FRAME_DATA {
                self.on_data(h)
            } else if 9 + h.length > self.lim.io {
                Round::Fail(self, frame_size_error())
            } else if recv.len() < 9 + h.length {
                Round::Stop(self)
            } else {
                match self.on_frame(h) {
                    (s, Ok(())) => Round::Next(
                        Sys { io: Wire { recv: recv.skip(9 + h.length), ..s.io }, ..s },
                    ),
                    (s, Err(e)) => Round::Fail(s, e),
                }
            }
        }
    }

    /// What is left to do, as a number that every round makes smaller.
    pub open spec fn work(self) -> int {
        self.io.recv.len() * 2 + if self.c.partial is Some {
            1int
        } else {
            0int
        }
    }

    /// Rounds until nothing more can be done.
    pub open spec fn rounds(self) -> (Sys, Result<(), Error>)
        decreases self.work(),
    {
        proof {
            round_makes_progress(self);
        }
        match self.round() {
            Round::Stop(s) => (s, Ok(())),
            Round::Fail(s, e) => (s, Err(e)),
            Round::Next(s) => s.rounds(),
        }
    }

    /// The client's preface is checked as far as it was received.
    pub open spec fn preface_checked(self) -> (Sys, Result<(), Error>) {
        let seen = self.c.preface_bytes_seen;
        let n = smaller(24 - seen, self.io.recv.len() as int);
        if self.io.recv.take(n) != CONNECTION_PREFACE@.subrange(seen, seen + n) {
            (self, Err(Error::InvalidState))
        } else {
            (
                Sys {
                    c: Conn {
                        preface_bytes_seen: seen + n,
                        preface_validated: self.c.preface_validated || seen + n >= 24,
                        ..self.c
                    },
                    ..self.drained(n)
                },
                Ok(()),
            )
        }
    }

    /// Rounds, and then streams that nothing needs are dropped.
    pub open spec fn frames_processed(self) -> (Sys, Result<(), Error>) {
        match self.rounds() {
            (s, Ok(())) => (s.with_streams(live(s.c.streams)), Ok(())),
            (s, Err(e)) => (s, Err(e)),
        }
    }

    /// What was received is processed.
    pub open spec fn processed(self) -> (Sys, Result<(), Error>) {
        if self.c.role is Server && !self.c.preface_validated {
            match self.preface_checked() {
                (s, Err(e)) => (s, Err(e)),
                (s, Ok(())) => if s.c.preface_validated {
                    s.frames_processed()
                } else {
                    (s, Ok(()))
                },
            }
        } else {
            self.frames_processed()
        }
    }

    /// Bytes arrive.
    pub open spec fn fed(self, data: Seq<u8>) -> (Sys, Result<(), Error>) {
        let s = self.generated();
        if s.io.recv.len() + data.len() > s.lim.io {
            (s, Err(error::too_small((s.io.recv.len() + data.len()) as int)))
        } else {
            Sys { io: Wire { recv: s.io.recv + data, ..s.io }, ..s }.processed()
        }
    }

    /// Bytes arrive at a known time.
    pub open spec fn fed_at(self, data: Seq<u8>, now: u64) -> (Sys, Result<(), Error>) {
        Sys { c: Conn { last_activity: now, ..self.c }, ..self }.fed(data)
    }

    /// Time passes: a deadline that was reached closes the connection.
    pub open spec fn timed(self, now: u64) -> Sys {
        if self.c.next_deadline() is Some && now >= self.c.next_deadline()->0 {
            let s = self.goaway_sent(0).0;
            Sys { c: Conn { state: H2ConnState::Closed, ..s.c }, ..s }.with_event(
                H2Event::Timeout,
            )
        } else {
            self
        }
    }
}

// What sending credit leaves as it is.

/// Two streams that differ at most in the accounting of receive credit.
pub open spec fn same_but_credit(a: StreamModel, b: StreamModel) -> bool {
    a == (StreamModel { recv_window: a.recv_window, pending: a.pending, ..b })
}

/// Two connections that differ at most in the accounting of receive credit
/// and in what waits to be sent.
pub open spec fn same_but_flush(a: Sys, b: Sys) -> bool {
    &&& a.io.recv == b.io.recv
    &&& a.lim == b.lim
    &&& a.c.streams.len() == b.c.streams.len()
    &&& forall|i: int|
        0 <= i < a.c.streams.len() ==> same_but_credit(#[trigger] a.c.streams[i], b.c.streams[i])
    &&& a.c == (Conn {
        recv_window: a.c.recv_window,
        pending: a.c.pending,
        streams: a.c.streams,
        ..b.c
    })
    &&& b.io.send.len() <= b.lim.io ==> a.io.send.len() <= a.lim.io
}

pub proof fn flush_from_frame(s: Sys, i: int)
    requires
        0 <= i,
    ensures
        same_but_flush(s.flush_from(i), s),
        s.flush_from(i).c.recv_window == s.c.recv_window,
        s.flush_from(i).c.pending == s.c.pending,
    decreases s.c.streams.len() - i,
{
    if i < s.c.streams.len() {
        let t = s.flush_stream(i);
        assert(same_but_flush(t, s));
        flush_from_frame(t, i + 1);
        let u = t.flush_from(i + 1);
        assert forall|k: int| 0 <= k < u.c.streams.len() implies same_but_credit(
            #[trigger] u.c.streams[k],
            s.c.streams[k],
        ) by {
            assert(same_but_credit(t.c.streams[k], s.c.streams[k]));
        }
    }
}

/// Sending credit changes nothing but the accounting of it and the bytes that
/// wait to be sent.
pub proof fn flush_frame(s: Sys)
    ensures
        same_but_flush(s.flushed(), s),
{
    reveal(Sys::flushed);
    let t = s.flush_conn();
    flush_from_frame(t, 0);
}

/// The same holds where credit is recorded first.
pub proof fn conn_credit_frame(s: Sys, n: u32)
    ensures
        same_but_flush(s.conn_credited(n), s),
{
    if n > 0 {
        let t = Sys {
            c: Conn { pending: stream::saturated(s.c.pending + n), ..s.c },
            ..s
        };
        flush_frame(t);
    }
}

/// Every round makes what is left to do smaller.
pub proof fn round_makes_progress(s: Sys)
    ensures
        s.round() matches Round::Next(t) ==> 0 <= t.work() < s.work(),
{
    if s.c.partial is Some {
        let pd = s.c.partial->0;
        let (t, pd1) = s.payload_pumped(pd);
        payload_pump_bounds(s, pd);
        let (u, pd2) = t.padding_pumped(pd1);
        assert(u.io.recv.len() <= t.io.recv.len());
        reveal(Sys::stream_data_ended);
        assert(u.frame_ended(pd2).io.recv == u.io.recv);
    } else {
        let h = frame::header_at(s.io.recv);
        if h.frame_type == FRAME_DATA {
            data_verdict_bounds(s, h);
        }
    }
}

/// A DATA frame that is accepted has its header there.
pub proof fn data_verdict_bounds(s: Sys, h: H2FrameHeader)
    ensures
        s.data_verdict(h) matches Ok(Some(d)) ==> 9 <= d.header_len <= 10 && d.header_len
            <= s.io.recv.len(),
{
    reveal(Sys::data_verdict);
}

/// What is taken from the received bytes is there, and what is delivered fits.
pub proof fn payload_pump_bounds(s: Sys, pd: PartialData)
    ensures
        match s.pump_step(pd) {
            PumpStep::Wait => true,
            PumpStep::Deliver(i, n) => 0 < n <= s.io.recv.len() && n <= pd.data_remaining && 0 <= i
                < s.c.streams.len() && find(s.c.streams, pd.stream_id) == Some(i)
                && s.c.streams[i].data.len() + n <= s.lim.data && pd.deliver,
            PumpStep::Discard(n) => 0 < n <= s.io.recv.len() && n <= pd.data_remaining,
        },
        s.payload_pumped(pd).0.io.recv.len() <= s.io.recv.len(),
        s.payload_pumped(pd).0.lim == s.lim,
{
    reveal(Sys::pump_step);
    find_bounds(s.c.streams, pd.stream_id);
    match s.pump_step(pd) {
        PumpStep::Discard(n) => {
            conn_credit_frame(s.drained(n), n as u32);
        },
        _ => {},
    }
}

/// A stream that was made sure of is there.
pub proof fn ensured_finds(s: Sys, id: u64)
    ensures
        s.ensured(id).1 ==> find(s.ensured(id).0.c.streams, id) is Some,
        s.ensured(id).0.io.recv == s.io.recv,
{
    if find(s.c.streams, id) is None {
        let credit = stream::saturated(closed_data(s.c.streams));
        conn_credit_frame(s.with_streams(not_closed(s.c.streams)), credit);
        let (t, ok) = s.ensured(id);
        if ok {
            find_bounds(t.c.streams, id);
            assert(t.c.streams[t.c.streams.len() - 1].id == id);
        }
    }
}

proof fn lemma_headers_keep_received(s: Sys, h: H2FrameHeader)
    ensures
        s.on_headers(h).0.io.recv == s.io.recv,
{
    reveal(Sys::on_headers);
    ensured_finds(s.peer_id_seen(h.stream_id), h.stream_id);
}

proof fn lemma_settings_keep_received(s: Sys, h: H2FrameHeader)
    ensures
        s.on_settings(h).0.io.recv == s.io.recv,
{
    reveal(Sys::on_settings);
}

proof fn lemma_reset_keeps_received(s: Sys, h: H2FrameHeader)
    ensures
        s.on_rst_stream(h).0.io.recv == s.io.recv,
{
    reveal(Sys::on_rst_stream);
    match find(s.c.streams, h.stream_id) {
        Some(i) => {
            conn_credit_frame(
                s.with_stream(i, s.c.streams[i].dropped()),
                stream::saturated(s.c.streams[i].data.len() as int),
            );
        },
        None => {},
    }
}

proof fn lemma_others_keep_received(s: Sys, h: H2FrameHeader)
    ensures
        s.on_window_update(h).0.io.recv == s.io.recv,
        s.on_goaway(h).0.io.recv == s.io.recv,
        s.on_continuation(h).0.io.recv == s.io.recv,
{
    reveal(Sys::on_window_update);
    reveal(Sys::on_goaway);
    reveal(Sys::on_continuation);
}

proof fn lemma_ping_keeps_received(s: Sys, h: H2FrameHeader)
    ensures
        s.on_ping(h).0.io.recv == s.io.recv,
{
    reveal(Sys::on_ping);
}

/// Handling a frame leaves the received bytes as they are.
pub proof fn on_frame_keeps_received(s: Sys, h: H2FrameHeader)
    ensures
        s.on_frame(h).0.io.recv == s.io.recv,
{
    reveal(Sys::on_frame);
    lemma_headers_keep_received(s, h);
    lemma_settings_keep_received(s, h);
    lemma_reset_keeps_received(s, h);
    lemma_others_keep_received(s, h);
    lemma_ping_keeps_received(s, h);
}

} // verus!
