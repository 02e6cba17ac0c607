//! HTTP/2 streams (RFC 9113 §5.1).

use vstd::prelude::*;

use super::flow_control::MAX_WINDOW_SIZE;
use crate::buf::Buf;

verus! {

/// The state of a stream.
#[derive(Debug, Clone, Copy, PartialEq, Eq, Structural)]
pub enum H2StreamState {
    Idle,
    Open,
    HalfClosedLocal,
    HalfClosedRemote,
    Closed,
}

impl H2StreamState {
    /// After END_STREAM was sent.
    pub open spec fn after_send_end(self) -> H2StreamState {
        match self {
            H2StreamState::Open => H2StreamState::HalfClosedLocal,
            H2StreamState::HalfClosedRemote => H2StreamState::Closed,
            _ => self,
        }
    }

    /// After END_STREAM was received.
    pub open spec fn after_recv_end(self) -> H2StreamState {
        match self {
            H2StreamState::Open => H2StreamState::HalfClosedRemote,
            H2StreamState::HalfClosedLocal => H2StreamState::Closed,
            _ => self,
        }
    }

    /// Data may be sent.
    pub open spec fn sendable(self) -> bool {
        self is Open || self is HalfClosedRemote
    }
}

/// What is known of a stream.
#[verifier::ext_equal]
pub struct StreamModel {
    pub id: u64,
    pub state: H2StreamState,
    pub send_window: i32,
    pub recv_window: i32,
    /// Receive-window credit that was not sent yet.
    pub pending: u32,
    /// The header block received so far.
    pub headers: Seq<u8>,
    /// Body bytes received and not yet read.
    pub data: Seq<u8>,
    pub headers_received: bool,
    pub data_available: bool,
    pub fin_received: bool,
}

impl StreamModel {
    pub open spec fn new(id: u64, send_window: i32, recv_window: i32) -> StreamModel {
        StreamModel {
            id,
            state: H2StreamState::Idle,
            send_window,
            recv_window,
            pending: 0,
            headers: Seq::empty(),
            data: Seq::empty(),
            headers_received: false,
            data_available: false,
            fin_received: false,
        }
    }

    /// Open, if it was idle.
    pub open spec fn opened(self) -> StreamModel {
        StreamModel {
            state: if self.state is Idle {
                H2StreamState::Open
            } else {
                self.state
            },
            ..self
        }
    }

    /// END_STREAM was sent, if `end`.
    pub open spec fn send_ended(self, end: bool) -> StreamModel {
        if end {
            StreamModel { state: self.state.after_send_end(), ..self }
        } else {
            self
        }
    }

    /// `n` bytes were sent, and END_STREAM with them if `end`.
    pub open spec fn data_sent(self, n: int, end: bool) -> StreamModel {
        StreamModel { send_window: (self.send_window - n) as i32, ..self }.send_ended(end)
    }

    /// END_STREAM was received, if `end`.
    pub open spec fn recv_ended(self, end: bool) -> StreamModel {
        if end {
            StreamModel { state: self.state.after_recv_end(), fin_received: true, ..self }
        } else {
            self
        }
    }

    /// A header block begins.
    pub open spec fn headers_begun(self) -> StreamModel {
        StreamModel { headers: Seq::empty(), ..self.opened() }
    }

    /// A fragment of the header block was received, the last one if `end`.
    pub open spec fn headers_grown(self, fragment: Seq<u8>, end: bool) -> StreamModel {
        StreamModel {
            headers: self.headers + fragment,
            headers_received: self.headers_received || end,
            ..self
        }
    }

    /// A DATA frame was received whole, with END_STREAM if `end`.
    pub open spec fn data_ended(self, end: bool) -> StreamModel {
        StreamModel { data_available: true, ..self }.recv_ended(end)
    }

    /// Reset, with its unread body dropped.
    pub open spec fn dropped(self) -> StreamModel {
        StreamModel {
            state: H2StreamState::Closed,
            data: Seq::empty(),
            data_available: false,
            ..self
        }
    }

    /// Body bytes were received.
    pub open spec fn delivered(self, bytes: Seq<u8>) -> StreamModel {
        StreamModel {
            data: self.data + bytes,
            data_available: true,
            recv_window: shrunk(self.recv_window, bytes.len() as int),
            ..self
        }
    }

    /// The first `n` body bytes were read.
    pub open spec fn read(self, n: int) -> StreamModel {
        StreamModel {
            data: self.data.skip(n),
            data_available: self.data.skip(n).len() > 0,
            ..self
        }
    }

    /// The header block was read.
    pub open spec fn headers_read(self) -> StreamModel {
        StreamModel { headers: Seq::empty(), headers_received: false, ..self }
    }

    /// Credit was recorded.
    pub open spec fn credited(self, n: u32) -> StreamModel {
        StreamModel { pending: saturated(self.pending + n), ..self }
    }

    /// The recorded credit was sent.
    pub open spec fn credit_sent(self) -> StreamModel {
        StreamModel {
            recv_window: if self.recv_window + self.pending > MAX_WINDOW_SIZE {
                MAX_WINDOW_SIZE
            } else {
                (self.recv_window + self.pending) as i32
            },
            pending: 0,
            ..self
        }
    }

    /// Closed and with nothing to read: nothing needs it any more.
    pub open spec fn live(self) -> bool {
        !(self.state is Closed) || self.data_available
    }
}

/// A sum of credit, held at the largest `u32`.
pub open spec fn saturated(n: int) -> u32 {
    if n > u32::MAX {
        u32::MAX
    } else {
        n as u32
    }
}

/// A receive window that `n` bytes took from, held at the smallest `i32`.
pub open spec fn shrunk(window: i32, n: int) -> i32 {
    if window - n < i32::MIN {
        i32::MIN
    } else {
        (window - n) as i32
    }
}

/// A stream with its buffers: a header block of at most `HDRBUF` bytes, and
/// unread body data of at most `DATABUF` bytes.
#[derive(Debug)]
pub struct H2Stream<const HDRBUF: usize, const DATABUF: usize> {
    pub id: u64,
    pub state: H2StreamState,
    pub send_window: i32,
    pub recv_window: i32,
    /// Receive-window credit not yet sent because the send buffer was full.
    pub pending_recv_credit: u32,
    pub headers_data: Buf<HDRBUF>,
    pub data_buf: Buf<DATABUF>,
    pub headers_received: bool,
    pub data_available: bool,
    pub fin_received: bool,
}

impl<const HDRBUF: usize, const DATABUF: usize> View for H2Stream<HDRBUF, DATABUF> {
    type V = StreamModel;

    open spec fn view(&self) -> StreamModel {
        StreamModel {
            id: self.id,
            state: self.state,
            send_window: self.send_window,
            recv_window: self.recv_window,
            pending: self.pending_recv_credit,
            headers: self.headers_data@,
            data: self.data_buf@,
            headers_received: self.headers_received,
            data_available: self.data_available,
            fin_received: self.fin_received,
        }
    }
}

impl<const HDRBUF: usize, const DATABUF: usize> H2Stream<HDRBUF, DATABUF> {
    pub open spec fn wf(&self) -> bool {
        self.headers_data.wf() && self.data_buf.wf()
    }

    pub fn new(id: u64, send_window: i32, recv_window: i32) -> (r: Self)
        ensures
            r.wf(),
            r@ == StreamModel::new(id, send_window, recv_window),
    {
        H2Stream {
            id,
            state: H2StreamState::Idle,
            send_window,
            recv_window,
            pending_recv_credit: 0,
            headers_data: Buf::new(),
            data_buf: Buf::new(),
            headers_received: false,
            data_available: false,
            fin_received: false,
        }
    }

    /// Opens an idle stream.
    pub fn open(&mut self)
        requires
            old(self).wf(),
        ensures
            final(self).wf(),
            final(self)@ == old(self)@.opened(),
    {
        if self.state == H2StreamState::Idle {
            self.state = H2StreamState::Open;
        }
    }

    /// Whether data may be sent.
    pub fn can_send(&self) -> (r: bool)
        ensures
            r == self@.state.sendable(),
    {
        self.state == H2StreamState::Open || self.state == H2StreamState::HalfClosedRemote
    }

    pub fn send_end_stream(&mut self)
        requires
            old(self).wf(),
        ensures
            final(self).wf(),
            final(self)@ == old(self)@.send_ended(true),
    {
        match self.state {
            H2StreamState::Open => {
                self.state = H2StreamState::HalfClosedLocal;
            },
            H2StreamState::HalfClosedRemote => {
                self.state = H2StreamState::Closed;
            },
            _ => {},
        }
    }

    /// Takes sent data off the send window, and ends the sending side if `end`.
    pub fn count_sent(&mut self, n: usize, end: bool)
        requires
            old(self).wf(),
            n == 0 || n <= old(self)@.send_window,
        ensures
            final(self).wf(),
            final(self)@ == old(self)@.data_sent(n as int, end),
    {
        if n > 0 {
            self.send_window = self.send_window - n as i32;
        }
        if end {
            self.send_end_stream();
        }
    }

    pub fn recv_end_stream(&mut self)
        requires
            old(self).wf(),
        ensures
            final(self).wf(),
            final(self)@ == old(self)@.recv_ended(true),
    {
        self.fin_received = true;
        match self.state {
            H2StreamState::Open => {
                self.state = H2StreamState::HalfClosedRemote;
            },
            H2StreamState::HalfClosedLocal => {
                self.state = H2StreamState::Closed;
            },
            _ => {},
        }
    }

    /// Begins a header block.
    pub fn begin_headers(&mut self)
        requires
            old(self).wf(),
        ensures
            final(self).wf(),
            final(self)@ == old(self)@.headers_begun(),
    {
        self.open();
        self.headers_data.clear();
    }

    /// Takes in a fragment of the header block, the last one if `end`. Fails
    /// and changes nothing where the block would grow beyond `HDRBUF` bytes.
    pub fn grow_headers(&mut self, fragment: &[u8], end: bool) -> (r: Result<(), ()>)
        requires
            old(self).wf(),
        ensures
            final(self).wf(),
            if old(self)@.headers.len() + fragment@.len() <= HDRBUF {
                r == Ok::<(), ()>(()) && final(self)@ == old(self)@.headers_grown(fragment@, end)
            } else {
                r == Err::<(), ()>(()) && final(self)@ == old(self)@
            },
    {
        self.headers_data.extend_from_slice(fragment)?;
        if end {
            self.headers_received = true;
        }
        Ok(())
    }

    /// Takes note of a DATA frame that was received whole. The stream becomes
    /// readable even where the frame was empty.
    pub fn end_data(&mut self, end: bool)
        requires
            old(self).wf(),
        ensures
            final(self).wf(),
            final(self)@ == old(self)@.data_ended(end),
    {
        self.data_available = true;
        if end {
            self.recv_end_stream();
        }
    }

    /// Resets the stream and drops its unread body.
    pub fn reset(&mut self)
        requires
            old(self).wf(),
        ensures
            final(self).wf(),
            final(self)@ == old(self)@.dropped(),
    {
        self.data_buf.clear();
        self.data_available = false;
        self.state = H2StreamState::Closed;
    }

    /// Takes in body bytes.
    pub fn deliver(&mut self, bytes: &[u8])
        requires
            old(self).wf(),
            old(self)@.data.len() + bytes@.len() <= DATABUF,
            bytes@.len() <= 0x7fff_ffff,
        ensures
            final(self).wf(),
            final(self)@ == old(self)@.delivered(bytes@),
    {
        let _ = self.data_buf.extend_from_slice(bytes);
        self.data_available = true;
        let w: i64 = self.recv_window as i64 - bytes.len() as i64;
        self.recv_window = if w < i32::MIN as i64 {
            i32::MIN
        } else {
            w as i32
        };
    }

    /// Records receive-window credit.
    pub fn credit(&mut self, n: u32)
        requires
            old(self).wf(),
        ensures
            final(self).wf(),
            final(self)@ == old(self)@.credited(n),
    {
        self.pending_recv_credit = self.pending_recv_credit.saturating_add(n);
    }

    /// Applies the recorded credit to the receive window.
    pub fn apply_credit(&mut self)
        requires
            old(self).wf(),
        ensures
            final(self).wf(),
            final(self)@ == old(self)@.credit_sent(),
    {
        let w: i64 = self.recv_window as i64 + self.pending_recv_credit as i64;
        self.recv_window = if w > MAX_WINDOW_SIZE as i64 {
            MAX_WINDOW_SIZE
        } else {
            w as i32
        };
        self.pending_recv_credit = 0;
    }
}

} // verus!
