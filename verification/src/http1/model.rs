//! What an HTTP/1.1 connection does, as functions from state to state.

use vstd::prelude::*;

use super::connection::{Http1Event, MAX_EVENTS};
use super::head;
use crate::bytes::Field;
use crate::error;
use crate::error::Error;
use crate::http;
use crate::http::TimeoutConfig;
use crate::io::Wire;

verus! {

/// What a connection knows.
pub struct H1 {
    pub server: bool,
    pub connected: bool,
    pub closed: bool,
    /// The number of the message that was received last.
    pub id: u64,
    /// The number of requests that were sent.
    pub requests: u64,
    /// The head of the message that was received last, if it was not read yet.
    pub headers: Option<Seq<u8>>,
    /// Body bytes received and not yet read.
    pub data: Seq<u8>,
    /// Body bytes still to come.
    pub remaining: u64,
    pub events: Seq<Http1Event>,
    pub timeouts: TimeoutConfig,
    pub last_activity: u64,
    pub connection_start: u64,
    pub headers_phase_complete: bool,
}

/// A connection with its buffers and their capacities.
pub struct H1Sys {
    pub c: H1,
    pub io: Wire,
    pub headers_cap: int,
    pub data_cap: int,
    pub io_cap: int,
}

/// How one round of reading ends.
pub enum H1Round {
    Stop,
    Fail(Error),
    /// So many body bytes are delivered.
    Body(int),
    /// A head ends here, and a body of this length follows.
    Head(int, u64),
}

/// An event queue with one more event; the oldest makes room in a full one.
pub open spec fn pushed(events: Seq<Http1Event>, e: Http1Event) -> Seq<Http1Event> {
    if events.len() >= MAX_EVENTS {
        events.skip(1).push(e)
    } else {
        events.push(e)
    }
}

/// The smallest of three.
pub open spec fn least(a: int, b: int, c: int) -> int {
    if a <= b && a <= c {
        a
    } else if b <= c {
        b
    } else {
        c
    }
}

impl H1 {
    /// A new connection.
    pub open spec fn initial(server: bool) -> H1 {
        H1 {
            server,
            connected: false,
            closed: false,
            id: 0,
            requests: 0,
            headers: None,
            data: Seq::empty(),
            remaining: 0,
            events: Seq::empty(),
            timeouts: TimeoutConfig::none(),
            last_activity: 0,
            connection_start: 0,
            headers_phase_complete: false,
        }
    }

    /// Everything is within its capacity.
    pub open spec fn valid(self, headers_cap: int, data_cap: int) -> bool {
        &&& self.data.len() <= data_cap
        &&& self.headers matches Some(h) ==> h.len() <= headers_cap && head::head_fields(
            self.server,
            h,
        ) is Some
    }

    pub open spec fn with_event(self, e: Http1Event) -> H1 {
        H1 { events: pushed(self.events, e), ..self }
    }

    pub open spec fn with_event_if(self, cond: bool, e: Http1Event) -> H1 {
        if cond {
            self.with_event(e)
        } else {
            self
        }
    }

    /// The earliest deadline.
    pub open spec fn next_deadline(self) -> Option<u64> {
        if self.closed {
            None
        } else {
            http::earlier(
                match self.timeouts.header_timeout_us {
                    Some(us) if !self.headers_phase_complete => Some(
                        http::deadline(self.connection_start, us),
                    ),
                    _ => None,
                },
                match self.timeouts.idle_timeout_us {
                    Some(us) => Some(http::deadline(self.last_activity, us)),
                    None => None,
                },
            )
        }
    }

    /// Time passes: a deadline that was reached closes the connection.
    pub open spec fn timed(self, now: u64) -> H1 {
        match self.next_deadline() {
            Some(d) if now >= d => H1 { closed: true, ..self }.with_event(Http1Event::Timeout),
            _ => self,
        }
    }

    /// What reading the head of a message gives.
    pub open spec fn headers_read(self, id: u64) -> (H1, Seq<Field>, Result<(), Error>) {
        if id == 0 || id != self.id {
            (self, Seq::empty(), Err(Error::InvalidState))
        } else {
            match self.headers {
                None => (self, Seq::empty(), Err(Error::WouldBlock)),
                Some(h) => (
                    H1 { headers: None, ..self },
                    head::head_fields(self.server, h)->0,
                    Ok(()),
                ),
            }
        }
    }

    /// What reading body bytes into a buffer of `room` bytes gives.
    pub open spec fn body_read(self, id: u64, room: int) -> (
        H1,
        Seq<u8>,
        Result<(usize, bool), Error>,
    ) {
        if id == 0 || id != self.id {
            (self, Seq::empty(), Err(Error::InvalidState))
        } else if self.data.len() == 0 {
            if self.remaining == 0 {
                (self, Seq::empty(), Ok((0usize, true)))
            } else {
                (self, Seq::empty(), Err(Error::WouldBlock))
            }
        } else {
            let n = if self.data.len() <= room {
                self.data.len() as int
            } else {
                room
            };
            (
                H1 { data: self.data.skip(n), ..self },
                self.data.take(n),
                Ok((n as usize, n == self.data.len() && self.remaining == 0)),
            )
        }
    }

    /// Whether a message may be sent: a server answers the last request, a
    /// client goes on with its last one.
    pub open spec fn may_send(self, id: u64) -> bool {
        id != 0 && id == if self.server {
            self.id
        } else {
            self.requests
        }
    }
}

impl H1Sys {
    /// What the next round does with what was received.
    #[verifier::opaque]
    pub open spec fn round(self) -> H1Round {
        if self.c.remaining > 0 {
            let n = least(
                self.c.remaining as int,
                self.io.recv.len() as int,
                self.data_cap - self.c.data.len(),
            );
            if n <= 0 {
                H1Round::Stop
            } else {
                H1Round::Body(n)
            }
        } else if self.c.headers is Some || self.c.data.len() > 0 {
            // The application has not read the last message.
            H1Round::Stop
        } else {
            match head::head_end(self.io.recv, 0) {
                None => H1Round::Stop,
                Some(p) => {
                    let fs = head::head_fields(self.c.server, self.io.recv.take(p));
                    if self.c.id == u64::MAX {
                        H1Round::Fail(Error::StreamLimitExhausted)
                    } else if p > self.headers_cap {
                        H1Round::Fail(error::too_small(p))
                    } else if fs is None {
                        H1Round::Fail(Error::InvalidState)
                    } else {
                        match head::body_length(fs->0) {
                            None => H1Round::Fail(Error::InvalidState),
                            Some(n) => H1Round::Head(p, n),
                        }
                    }
                },
            }
        }
    }

    /// Body bytes are delivered.
    pub open spec fn body_delivered(self, n: int) -> H1Sys {
        let left = (self.c.remaining - n) as u64;
        H1Sys {
            c: H1 {
                data: self.c.data + self.io.recv.take(n),
                remaining: left,
                ..self.c
            }.with_event(Http1Event::Data(self.c.id)).with_event_if(
                left == 0,
                Http1Event::Finished(self.c.id),
            ),
            io: self.io.drained(n),
            ..self
        }
    }

    /// A head is taken in.
    pub open spec fn head_taken(self, p: int, n: u64) -> H1Sys {
        let id = (self.c.id + 1) as u64;
        H1Sys {
            c: H1 {
                id,
                headers: Some(self.io.recv.take(p)),
                remaining: n,
                headers_phase_complete: true,
                ..self.c
            }.with_event(Http1Event::Headers(id)).with_event_if(n == 0, Http1Event::Finished(id)),
            io: self.io.drained(p + 4),
            ..self
        }
    }

    /// Rounds until nothing more can be done.
    pub open spec fn rounds(self) -> (H1Sys, Result<(), Error>)
        decreases self.io.recv.len(),
    {
        proof {
            round_bounds(self);
        }
        match self.round() {
            H1Round::Stop => (self, Ok(())),
            H1Round::Fail(e) => (self, Err(e)),
            H1Round::Body(n) => self.body_delivered(n).rounds(),
            H1Round::Head(p, n) => self.head_taken(p, n).rounds(),
        }
    }

    /// The connection has begun.
    pub open spec fn begun(self) -> H1Sys {
        if self.c.connected {
            self
        } else {
            H1Sys { c: H1 { connected: true, ..self.c }.with_event(Http1Event::Connected), ..self }
        }
    }

    /// Bytes arrive.
    pub open spec fn fed(self, data: Seq<u8>) -> (H1Sys, Result<(), Error>) {
        if self.c.closed {
            (self, Err(Error::InvalidState))
        } else {
            let s = self.begun();
            if s.io.recv.len() + data.len() > s.io_cap {
                (s, Err(error::too_small((s.io.recv.len() + data.len()) as int)))
            } else {
                H1Sys { io: Wire { recv: s.io.recv + data, ..s.io }, ..s }.rounds()
            }
        }
    }

    /// Bytes arrive at a known time.
    pub open spec fn fed_at(self, data: Seq<u8>, now: u64) -> (H1Sys, Result<(), Error>) {
        H1Sys { c: H1 { last_activity: now, ..self.c }, ..self }.fed(data)
    }

    /// The next at most `room` bytes to send.
    pub open spec fn polled(self, room: int) -> (H1Sys, Option<Seq<u8>>) {
        let send = self.io.send;
        if send.len() == 0 {
            (self, None)
        } else {
            let n = if send.len() <= room {
                send.len() as int
            } else {
                room
            };
            (
                H1Sys { io: Wire { send: send.skip(n), ..self.io }, ..self },
                Some(send.take(n)),
            )
        }
    }

    /// A head is queued, if there is one.
    pub open spec fn head_queued(self, h: Option<Seq<u8>>) -> (H1Sys, Result<(), Error>) {
        match h {
            None => (self, Err(Error::InvalidState)),
            Some(b) => (
                H1Sys { io: self.io.queued(b, self.io_cap), ..self },
                self.io.queue_result(b, self.io_cap),
            ),
        }
    }

    /// Response headers are sent.
    pub open spec fn response_sent(self, id: u64, fs: Seq<Field>) -> (H1Sys, Result<(), Error>) {
        if !self.c.server || !self.c.may_send(id) {
            (self, Err(Error::InvalidState))
        } else {
            self.head_queued(head::response_head(fs))
        }
    }

    /// A request is sent.
    pub open spec fn request_sent(self, fs: Seq<Field>) -> (H1Sys, Result<u64, Error>) {
        if self.c.server {
            (self, Err(Error::InvalidState))
        } else if self.c.requests == u64::MAX {
            (self, Err(Error::StreamLimitExhausted))
        } else {
            match self.head_queued(head::request_head(fs)) {
                (s, Ok(())) => {
                    let id = (self.c.requests + 1) as u64;
                    (H1Sys { c: H1 { requests: id, ..s.c }, ..s }, Ok(id))
                },
                (s, Err(e)) => (s, Err(e)),
            }
        }
    }

    /// Body bytes are sent, as many as fit.
    pub open spec fn data_sent(self, id: u64, data: Seq<u8>) -> (H1Sys, Result<usize, Error>) {
        let room = self.io_cap - self.io.send.len();
        let n = if data.len() <= room {
            data.len() as int
        } else {
            room
        };
        if !self.c.may_send(id) {
            (self, Err(Error::InvalidState))
        } else if n == 0 && data.len() > 0 {
            (self, Err(Error::WouldBlock))
        } else {
            (
                H1Sys {
                    io: Wire { send: self.io.send + data.take(n), ..self.io },
                    ..self
                },
                Ok(n as usize),
            )
        }
    }
}

/// What a round takes is there, and what it stores fits.
pub proof fn round_bounds(s: H1Sys)
    ensures
        match s.round() {
            H1Round::Body(n) => 0 < n <= s.io.recv.len() && n <= s.c.remaining && s.c.data.len() + n
                <= s.data_cap,
            H1Round::Head(p, n) => 0 <= p && p + 4 <= s.io.recv.len() && p <= s.headers_cap
                && s.c.id < u64::MAX && head::head_fields(
                s.c.server,
                s.io.recv.take(p),
            ) is Some && s.c.headers is None && s.c.remaining == 0,
            _ => true,
        },
{
    reveal(H1Sys::round);
    head::head_end_bounds(s.io.recv, 0);
}

} // verus!
