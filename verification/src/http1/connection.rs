//! HTTP/1.1 connection state machine.
//!
//! One message at a time is received: the next head is read once the
//! application has read the message before it.

use std::collections::VecDeque;

use vstd::prelude::*;

use super::head;
use super::model;
use super::model::{H1, H1Round, H1Sys};
use crate::buf::Buf;
use crate::bytes;
use crate::bytes::HeaderField;
use crate::error::Error;
use crate::http;
use crate::http::TimeoutConfig;
use crate::io::IoBufs;

verus! {

/// How many events wait at most.
pub const MAX_EVENTS: usize = 64;

/// Events produced by the HTTP/1.1 connection.
#[derive(Debug, Clone, Copy, PartialEq, Eq, Structural)]
pub enum Http1Event {
    /// The connection has begun.
    Connected,
    /// Headers received.
    Headers(u64),
    /// Body data available.
    Data(u64),
    /// The message was received whole.
    Finished(u64),
    /// A timeout fired (idle or header timeout).
    Timeout,
}

/// HTTP/1.1 connection state machine. I/O buffers are provided by the caller.
#[derive(Debug)]
pub struct Http1Connection<const HDRBUF: usize, const DATABUF: usize> {
    pub server: bool,
    pub connected: bool,
    pub closed: bool,
    pub id: u64,
    pub requests: u64,
    pub headers: Option<Vec<u8>>,
    pub data: Buf<DATABUF>,
    pub remaining: u64,
    pub events: VecDeque<Http1Event>,
    pub timeout_config: TimeoutConfig,
    pub last_activity: u64,
    pub connection_start: u64,
    pub headers_phase_complete: bool,
}

impl<const HDRBUF: usize, const DATABUF: usize> View for Http1Connection<HDRBUF, DATABUF> {
    type V = H1;

    open spec fn view(&self) -> H1 {
        H1 {
            server: self.server,
            connected: self.connected,
            closed: self.closed,
            id: self.id,
            requests: self.requests,
            headers: match self.headers {
                Some(h) => Some(h@),
                None => None,
            },
            data: self.data@,
            remaining: self.remaining,
            events: self.events@,
            timeouts: self.timeout_config,
            last_activity: self.last_activity,
            connection_start: self.connection_start,
            headers_phase_complete: self.headers_phase_complete,
        }
    }
}

/// What the next round does.
enum Step {
    Stop,
    Body(usize),
    Head(usize, u64),
}

impl<const HDRBUF: usize, const DATABUF: usize> Http1Connection<HDRBUF, DATABUF> {
    pub open spec fn wf(&self) -> bool {
        self@.valid(HDRBUF as int, DATABUF as int)
    }

    /// The connection together with its buffers.
    pub open spec fn sys<const BUF: usize>(&self, io: IoBufs<BUF>) -> H1Sys {
        H1Sys {
            c: self@,
            io: io@,
            headers_cap: HDRBUF as int,
            data_cap: DATABUF as int,
            io_cap: BUF as int,
        }
    }

    fn new(server: bool) -> (r: Self)
        ensures
            r.wf(),
            r@ == H1::initial(server),
    {
        let r = Http1Connection {
            server,
            connected: false,
            closed: false,
            id: 0,
            requests: 0,
            headers: None,
            data: Buf::new(),
            remaining: 0,
            events: VecDeque::new(),
            timeout_config: TimeoutConfig::default(),
            last_activity: 0,
            connection_start: 0,
            headers_phase_complete: false,
        };
        assert(r@.events =~= Seq::<Http1Event>::empty());
        r
    }

    /// Creates a client-side connection.
    pub fn new_client() -> (r: Self)
        ensures
            r.wf(),
            r@ == H1::initial(false),
    {
        Self::new(false)
    }

    /// Creates a server-side connection.
    pub fn new_server() -> (r: Self)
        ensures
            r.wf(),
            r@ == H1::initial(true),
    {
        Self::new(true)
    }

    fn push_event(&mut self, event: Http1Event)
        requires
            old(self).wf(),
        ensures
            final(self).wf(),
            final(self)@ == old(self)@.with_event(event),
    {
        if self.events.len() >= MAX_EVENTS {
            let _ = self.events.pop_front();
            assert(self.events@ =~= old(self).events@.skip(1));
        }
        self.events.push_back(event);
    }

    /// Polls for the next event.
    pub fn poll_event(&mut self) -> (r: Option<Http1Event>)
        requires
            old(self).wf(),
        ensures
            final(self).wf(),
            if old(self)@.events.len() == 0 {
                r is None && final(self)@ == old(self)@
            } else {
                r == Some(old(self)@.events[0]) && final(self)@ == (H1 {
                    events: old(self)@.events.skip(1),
                    ..old(self)@
                })
            },
    {
        let r = self.events.pop_front();
        assert(r is Some ==> self.events@ =~= old(self).events@.skip(1));
        r
    }

    /// Decides what the next round does.
    fn plan<const BUF: usize>(&self, io: &IoBufs<BUF>) -> (r: Result<Step, Error>)
        requires
            self.wf(),
        ensures
            match r {
                Ok(Step::Stop) => self.sys(*io).round() is Stop,
                Ok(Step::Body(n)) => self.sys(*io).round() == H1Round::Body(n as int),
                Ok(Step::Head(p, n)) => self.sys(*io).round() == H1Round::Head(p as int, n),
                Err(e) => self.sys(*io).round() == H1Round::Fail(e),
            },
    {
        reveal(H1Sys::round);
        if self.remaining > 0 {
            let mut n: usize = DATABUF - self.data.len();
            if io.recv_buf.len() < n {
                n = io.recv_buf.len();
            }
            if self.remaining < n as u64 {
                n = self.remaining as usize;
            }
            if n == 0 {
                return Ok(Step::Stop);
            }
            return Ok(Step::Body(n));
        }
        if self.headers.is_some() || !self.data.is_empty() {
            return Ok(Step::Stop);
        }
        let recv: &[u8] = io.recv_buf.as_slice();
        match head::find_head_end(recv) {
            None => Ok(Step::Stop),
            Some(p) => {
                if self.id == u64::MAX {
                    return Err(Error::StreamLimitExhausted);
                }
                if p > HDRBUF {
                    return Err(Error::BufferTooSmall { needed: p });
                }
                assert(recv@.subrange(0, p as int) =~= recv@.take(p as int));
                match head::parse_head(self.server, &recv[0..p]) {
                    None => Err(Error::InvalidState),
                    Some(list) => match head::parse_body_length(&list) {
                        None => Err(Error::InvalidState),
                        Some(n) => Ok(Step::Head(p, n)),
                    },
                }
            },
        }
    }

    /// Delivers body bytes.
    fn deliver<const BUF: usize>(&mut self, io: &mut IoBufs<BUF>, n: usize)
        requires
            old(self).wf(),
            old(io).wf(),
            0 < n <= old(io)@.recv.len(),
            n <= old(self)@.remaining,
            old(self)@.data.len() + n <= DATABUF,
        ensures
            final(self).wf(),
            final(io).wf(),
            final(self).sys(*final(io)) == old(self).sys(*old(io)).body_delivered(n as int),
    {
        assert(io@.recv.subrange(0, n as int) =~= io@.recv.take(n as int));
        let _ = self.data.extend_from_slice(&io.recv_buf.as_slice()[0..n]);
        io.drain_recv(n);
        self.remaining = self.remaining - n as u64;
        let id: u64 = self.id;
        self.push_event(Http1Event::Data(id));
        if self.remaining == 0 {
            self.push_event(Http1Event::Finished(id));
        }
    }

    /// Takes in a head.
    fn take_head<const BUF: usize>(&mut self, io: &mut IoBufs<BUF>, p: usize, n: u64)
        requires
            old(self).wf(),
            old(io).wf(),
            p + 4 <= old(io)@.recv.len(),
            p <= HDRBUF,
            old(self)@.id < u64::MAX,
            head::head_fields(old(self)@.server, old(io)@.recv.take(p as int)) is Some,
        ensures
            final(self).wf(),
            final(io).wf(),
            final(self).sys(*final(io)) == old(self).sys(*old(io)).head_taken(p as int, n),
    {
        assert(io@.recv.subrange(0, p as int) =~= io@.recv.take(p as int));
        self.id = self.id + 1;
        self.headers = Some(vstd::slice::slice_to_vec(&io.recv_buf.as_slice()[0..p]));
        self.remaining = n;
        self.headers_phase_complete = true;
        io.drain_recv(p + 4);
        let id: u64 = self.id;
        self.push_event(Http1Event::Headers(id));
        if n == 0 {
            self.push_event(Http1Event::Finished(id));
        }
    }

    /// Rounds until nothing more can be done.
    fn process<const BUF: usize>(&mut self, io: &mut IoBufs<BUF>) -> (r: Result<(), Error>)
        requires
            old(self).wf(),
            old(io).wf(),
        ensures
            final(self).wf(),
            final(io).wf(),
            (final(self).sys(*final(io)), r) == old(self).sys(*old(io)).rounds(),
    {
        let ghost start = self.sys(*io);
        loop
            invariant
                self.wf(),
                io.wf(),
                start == old(self).sys(*old(io)),
                self.sys(*io).rounds() == start.rounds(),
            decreases io@.recv.len(),
        {
            proof {
                model::round_bounds(self.sys(*io));
            }
            match self.plan(io)? {
                Step::Stop => {
                    return Ok(());
                },
                Step::Body(n) => {
                    self.deliver(io, n);
                },
                Step::Head(p, n) => {
                    self.take_head(io, p, n);
                },
            }
        }
    }

    /// Takes note that the connection has begun.
    fn begin<const BUF: usize>(&mut self, io: &IoBufs<BUF>)
        requires
            old(self).wf(),
        ensures
            final(self).wf(),
            final(self).sys(*io) == old(self).sys(*io).begun(),
    {
        if !self.connected {
            self.connected = true;
            self.push_event(Http1Event::Connected);
        }
    }

    /// Feeds received data into the connection.
    pub fn feed_data<const BUF: usize>(&mut self, io: &mut IoBufs<BUF>, data: &[u8]) -> (r: Result<
        (),
        Error,
    >)
        requires
            old(self).wf(),
            old(io).wf(),
        ensures
            final(self).wf(),
            final(io).wf(),
            (final(self).sys(*final(io)), r) == old(self).sys(*old(io)).fed(data@),
    {
        if self.closed {
            return Err(Error::InvalidState);
        }
        self.begin(io);
        let needed: usize = io.recv_buf.len().saturating_add(data.len());
        if io.recv_buf.extend_from_slice(data).is_err() {
            return Err(Error::BufferTooSmall { needed });
        }
        self.process(io)
    }

    /// Feeds received data with a timestamp, which counts as activity.
    pub fn feed_data_timed<const BUF: usize>(
        &mut self,
        io: &mut IoBufs<BUF>,
        data: &[u8],
        now: u64,
    ) -> (r: Result<(), Error>)
        requires
            old(self).wf(),
            old(io).wf(),
        ensures
            final(self).wf(),
            final(io).wf(),
            (final(self).sys(*final(io)), r) == old(self).sys(*old(io)).fed_at(data@, now),
    {
        self.last_activity = now;
        self.feed_data(io, data)
    }

    /// Pulls the next chunk of outgoing data.
    pub fn poll_output<'a, const BUF: usize>(
        &mut self,
        io: &mut IoBufs<BUF>,
        buf: &'a mut [u8],
    ) -> (r: Option<&'a [u8]>)
        requires
            old(self).wf(),
            old(io).wf(),
        ensures
            bytes::chunk_at_start(old(buf)@, final(buf)@, r),
            final(self).wf(),
            final(io).wf(),
            final(self).sys(*final(io)) == old(self).sys(*old(io)).polled(
                old(buf)@.len() as int,
            ).0,
            match r {
                Some(chunk) => old(self).sys(*old(io)).polled(old(buf)@.len() as int).1 == Some(
                    chunk@,
                ),
                None => old(self).sys(*old(io)).polled(old(buf)@.len() as int).1 is None,
            },
    {
        if io.send_buf.is_empty() {
            return None;
        }
        let avail: usize = io.send_buf.len();
        let n: usize = if avail <= buf.len() {
            avail
        } else {
            buf.len()
        };
        let ghost send = io.send_buf@;
        assert(send.subrange(0, n as int) =~= send.take(n as int));
        bytes::copy_into(buf, 0, &io.send_buf.as_slice()[0..n]);
        io.send_buf.drain_front(n);
        assert(buf@.subrange(0, n as int) =~= send.take(n as int));
        Some(&buf[0..n])
    }

    /// Sends response headers.
    pub fn send_headers<const BUF: usize>(
        &mut self,
        io: &mut IoBufs<BUF>,
        stream_id: u64,
        headers: &[(&[u8], &[u8])],
        end_stream: bool,
    ) -> (r: Result<(), Error>)
        requires
            old(self).wf(),
            old(io).wf(),
        ensures
            final(self).wf(),
            final(io).wf(),
            (final(self).sys(*final(io)), r) == old(self).sys(*old(io)).response_sent(
                stream_id,
                bytes::pairs(headers@),
            ),
    {
        if !self.server || stream_id == 0 || stream_id != self.id {
            return Err(Error::InvalidState);
        }
        match head::write_response_head(headers) {
            None => Err(Error::InvalidState),
            Some(b) => io.queue_send(b.as_slice()),
        }
    }

    /// Sends a request. Returns its number.
    pub fn open_stream<const BUF: usize>(
        &mut self,
        io: &mut IoBufs<BUF>,
        headers: &[(&[u8], &[u8])],
        end_stream: bool,
    ) -> (r: Result<u64, Error>)
        requires
            old(self).wf(),
            old(io).wf(),
        ensures
            final(self).wf(),
            final(io).wf(),
            (final(self).sys(*final(io)), r) == old(self).sys(*old(io)).request_sent(
                bytes::pairs(headers@),
            ),
    {
        if self.server {
            return Err(Error::InvalidState);
        }
        if self.requests == u64::MAX {
            return Err(Error::StreamLimitExhausted);
        }
        match head::write_request_head(headers) {
            None => Err(Error::InvalidState),
            Some(b) => {
                io.queue_send(b.as_slice())?;
                self.requests = self.requests + 1;
                Ok(self.requests)
            },
        }
    }

    /// Sends body data, as much as fits. Returns how much that was.
    pub fn send_data<const BUF: usize>(
        &mut self,
        io: &mut IoBufs<BUF>,
        stream_id: u64,
        data: &[u8],
        end_stream: bool,
    ) -> (r: Result<usize, Error>)
        requires
            old(self).wf(),
            old(io).wf(),
        ensures
            final(self).wf(),
            final(io).wf(),
            (final(self).sys(*final(io)), r) == old(self).sys(*old(io)).data_sent(stream_id, data@),
    {
        let current: u64 = if self.server {
            self.id
        } else {
            self.requests
        };
        if stream_id == 0 || stream_id != current {
            return Err(Error::InvalidState);
        }
        let room: usize = BUF - io.send_buf.len();
        let n: usize = if data.len() <= room {
            data.len()
        } else {
            room
        };
        if n == 0 && data.len() > 0 {
            return Err(Error::WouldBlock);
        }
        assert(data@.subrange(0, n as int) =~= data@.take(n as int));
        let _ = io.send_buf.extend_from_slice(&data[0..n]);
        Ok(n)
    }

    /// Reads the head of a message, appending its fields to `out`. It is read
    /// once.
    pub fn recv_headers(&mut self, stream_id: u64, out: &mut Vec<HeaderField>) -> (r: Result<
        (),
        Error,
    >)
        requires
            old(self).wf(),
        ensures
            final(self).wf(),
            final(self)@ == old(self)@.headers_read(stream_id).0,
            bytes::fields(final(out)@) == bytes::fields(old(out)@) + old(self)@.headers_read(
                stream_id,
            ).1,
            r == old(self)@.headers_read(stream_id).2,
    {
        assert(bytes::fields(out@) =~= bytes::fields(out@) + Seq::empty());
        if stream_id == 0 || stream_id != self.id {
            return Err(Error::InvalidState);
        }
        match &self.headers {
            None => Err(Error::WouldBlock),
            Some(h) => {
                match head::parse_head(self.server, h.as_slice()) {
                    None => Err(Error::InvalidState),
                    Some(list) => {
                        let mut list = list;
                        let ghost a = out@;
                        let ghost b = list@;
                        out.append(&mut list);
                        assert(bytes::fields(out@) =~= bytes::fields(a) + bytes::fields(b));
                        self.headers = None;
                        Ok(())
                    },
                }
            },
        }
    }

    /// Reads body data. Returns how much, and whether it was the last.
    pub fn recv_body(&mut self, stream_id: u64, buf: &mut [u8]) -> (r: Result<(usize, bool), Error>)
        requires
            old(self).wf(),
        ensures
            final(self).wf(),
            final(self)@ == old(self)@.body_read(stream_id, old(buf)@.len() as int).0,
            final(buf)@ == bytes::splice(
                old(buf)@,
                0,
                old(self)@.body_read(stream_id, old(buf)@.len() as int).1,
            ),
            r == old(self)@.body_read(stream_id, old(buf)@.len() as int).2,
    {
        assert(buf@ =~= bytes::splice(buf@, 0, Seq::empty()));
        if stream_id == 0 || stream_id != self.id {
            return Err(Error::InvalidState);
        }
        if self.data.is_empty() {
            if self.remaining == 0 {
                return Ok((0, true));
            }
            return Err(Error::WouldBlock);
        }
        let avail: usize = self.data.len();
        let n: usize = if avail <= buf.len() {
            avail
        } else {
            buf.len()
        };
        let ghost data = self.data@;
        assert(data.subrange(0, n as int) =~= data.take(n as int));
        bytes::copy_into(buf, 0, &self.data.as_slice()[0..n]);
        self.data.drain_front(n);
        Ok((n, n == avail && self.remaining == 0))
    }

    /// Configures timeouts. `now` is the current timestamp in microseconds.
    pub fn set_timeouts(&mut self, config: TimeoutConfig, now: u64)
        requires
            old(self).wf(),
        ensures
            final(self).wf(),
            final(self)@ == (H1 {
                timeouts: config,
                last_activity: now,
                connection_start: now,
                ..old(self)@
            }),
    {
        self.timeout_config = config;
        self.last_activity = now;
        self.connection_start = now;
    }

    /// The earliest deadline at which `handle_timeout` should be called.
    pub fn next_timeout(&self) -> (r: Option<u64>)
        ensures
            r == self@.next_deadline(),
    {
        if self.closed {
            return None;
        }
        let header: Option<u64> = match self.timeout_config.header_timeout_us {
            Some(us) => if self.headers_phase_complete {
                None
            } else {
                Some(self.connection_start.saturating_add(us))
            },
            None => None,
        };
        let idle: Option<u64> = match self.timeout_config.idle_timeout_us {
            Some(us) => Some(self.last_activity.saturating_add(us)),
            None => None,
        };
        http::earlier_deadline(header, idle)
    }

    /// Checks timeouts. One that fires closes the connection.
    pub fn handle_timeout(&mut self, now: u64)
        requires
            old(self).wf(),
        ensures
            final(self).wf(),
            final(self)@ == old(self)@.timed(now),
    {
        if let Some(deadline) = self.next_timeout() {
            if now >= deadline {
                self.closed = true;
                self.push_event(Http1Event::Timeout);
            }
        }
    }

    /// Whether the connection is closed.
    pub fn is_closed(&self) -> (r: bool)
        ensures
            r == self@.closed,
    {
        self.closed
    }

    /// Whether the connection is usable.
    pub fn is_established(&self) -> (r: bool)
        ensures
            r == !self@.closed,
    {
        !self.closed
    }
}

} // verus!
