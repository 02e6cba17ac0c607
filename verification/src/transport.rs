//! What the servers need from their surroundings: time, randomness, sockets.

use vstd::prelude::*;

use crate::error::Error;

verus! {

/// Timestamp in microseconds from an arbitrary epoch.
pub type Instant = u64;

/// Clock for timers.
pub trait Clock {
    /// Current time in microseconds from an arbitrary epoch.
    fn now(&self) -> Instant;
}

/// All that was drawn from a generator, draw by draw. It exists in specifications
/// alone.
pub type DrawHistory = Seq<Seq<u8>>;

/// Random bytes for secrets, connection IDs and nonces.
pub trait Rng {
    /// All that has been drawn so far.
    spec fn drawn(&self) -> DrawHistory;

    /// Fills `buf` with random bytes.
    fn fill(&mut self, buf: &mut [u8])
        ensures
            final(buf)@.len() == old(buf)@.len(),
            final(self).drawn() == old(self).drawn().push(final(buf)@),
    ;
}

/// Address type, opaque to the stack and meaningful to the caller.
pub trait Address: Clone + PartialEq {

}

impl<T: Clone + PartialEq> Address for T {

}

// ---------------------------------------------------------------------------
// Poll-based sockets
// ---------------------------------------------------------------------------

/// The outcome of an attempt that may have to wait.
#[derive(Debug)]
pub enum Poll<T> {
    Ready(T),
    Pending,
}

/// What a poll is made in: it can ask to be polled again soon.
#[derive(Debug, Default)]
pub struct Context {
    /// Another poll is wanted without waiting for a socket.
    pub wake_requested: bool,
}

impl Context {
    pub fn new() -> (r: Self)
        ensures
            !r.wake_requested,
    {
        Context { wake_requested: false }
    }

    /// Asks for another poll.
    pub fn wake(&mut self)
        ensures
            final(self).wake_requested,
    {
        self.wake_requested = true;
    }
}

// What sockets answer, and all that they have answered. These types exist in
// specifications alone.

/// What a stream answers to a read.
pub enum ReadOutcome {
    /// These bytes; none of them is the end of the stream.
    Data(Seq<u8>),
    Failed,
    Wait,
}

/// What a stream answers to a write.
pub enum WriteOutcome {
    /// It took so many bytes.
    Took(int),
    Failed,
    Wait,
}

/// All that a stream was asked, and what it answered.
#[verifier::ext_equal]
pub struct StreamHistory {
    /// All bytes read.
    pub received: Seq<u8>,
    /// All bytes written.
    pub written: Seq<u8>,
    /// The answer to each read.
    pub reads: Seq<ReadOutcome>,
    /// What was given to each write, and the answer.
    pub writes: Seq<(Seq<u8>, WriteOutcome)>,
}

/// What a listener answers when it is asked for a connection.
pub enum AcceptOutcome {
    /// A stream with this history.
    Stream(StreamHistory),
    Failed,
    Wait,
}

/// All that a listener has answered.
pub type AcceptHistory = Seq<AcceptOutcome>;

/// What a socket answers when it is asked for a datagram.
pub enum ReceiveOutcome<A> {
    /// A datagram, and where it came from.
    Datagram(Seq<u8>, A),
    Failed,
    Wait,
}

/// What a socket answers to a datagram that is sent.
pub enum SendOutcome {
    Sent,
    Failed,
    Wait,
}

/// All that a datagram socket was asked, and what it answered.
#[verifier::ext_equal]
pub struct SocketHistory<A> {
    /// All datagrams received, and where each came from.
    pub received: Seq<(Seq<u8>, A)>,
    /// All datagrams sent, and where each went.
    pub sent: Seq<(Seq<u8>, A)>,
    /// The answer to each attempt to receive.
    pub receives: Seq<ReceiveOutcome<A>>,
    /// What was given to each attempt to send, where it should go, and the answer.
    pub sends: Seq<(Seq<u8>, A, SendOutcome)>,
}

impl StreamHistory {
    /// A read was answered.
    pub open spec fn after_read(self, o: ReadOutcome) -> Self {
        StreamHistory {
            received: match o {
                ReadOutcome::Data(d) => self.received + d,
                _ => self.received,
            },
            reads: self.reads.push(o),
            ..self
        }
    }

    /// A write of these bytes was answered.
    pub open spec fn after_write(self, given: Seq<u8>, o: WriteOutcome) -> Self {
        StreamHistory {
            written: match o {
                WriteOutcome::Took(n) => self.written + given.take(n),
                _ => self.written,
            },
            writes: self.writes.push((given, o)),
            ..self
        }
    }
}

impl<A> SocketHistory<A> {
    /// Nothing was asked.
    pub open spec fn empty() -> Self {
        SocketHistory {
            received: Seq::empty(),
            sent: Seq::empty(),
            receives: Seq::empty(),
            sends: Seq::empty(),
        }
    }

    /// An attempt to receive was answered.
    pub open spec fn after_receive(self, o: ReceiveOutcome<A>) -> Self {
        SocketHistory {
            received: match o {
                ReceiveOutcome::Datagram(d, from) => self.received.push((d, from)),
                _ => self.received,
            },
            receives: self.receives.push(o),
            ..self
        }
    }

    /// An attempt to send was answered.
    pub open spec fn after_send(self, d: Seq<u8>, to: A, o: SendOutcome) -> Self {
        SocketHistory {
            sent: if o is Sent {
                self.sent.push((d, to))
            } else {
                self.sent
            },
            sends: self.sends.push((d, to, o)),
            ..self
        }
    }
}

/// The answer to a read into a buffer that then holds `buf`.
pub open spec fn read_outcome<E>(r: Poll<Result<usize, E>>, buf: Seq<u8>) -> ReadOutcome {
    match r {
        Poll::Ready(Ok(n)) => ReadOutcome::Data(buf.take(n as int)),
        Poll::Ready(Err(_)) => ReadOutcome::Failed,
        Poll::Pending => ReadOutcome::Wait,
    }
}

/// The answer to a write.
pub open spec fn write_outcome<E>(r: Poll<Result<usize, E>>) -> WriteOutcome {
    match r {
        Poll::Ready(Ok(n)) => WriteOutcome::Took(n as int),
        Poll::Ready(Err(_)) => WriteOutcome::Failed,
        Poll::Pending => WriteOutcome::Wait,
    }
}

/// The answer of a listener.
pub open spec fn accept_outcome<T: TcpStream, E>(r: Poll<Result<T, E>>) -> AcceptOutcome {
    match r {
        Poll::Ready(Ok(stream)) => AcceptOutcome::Stream(stream.history()),
        Poll::Ready(Err(_)) => AcceptOutcome::Failed,
        Poll::Pending => AcceptOutcome::Wait,
    }
}

/// The answer to an attempt to receive into a buffer that then holds `buf`.
pub open spec fn receive_outcome<A, E>(r: Poll<Result<(usize, A), E>>, buf: Seq<u8>) -> ReceiveOutcome<
    A,
> {
    match r {
        Poll::Ready(Ok((n, from))) => ReceiveOutcome::Datagram(buf.take(n as int), from),
        Poll::Ready(Err(_)) => ReceiveOutcome::Failed,
        Poll::Pending => ReceiveOutcome::Wait,
    }
}

/// The answer to an attempt to send.
pub open spec fn send_outcome<E>(r: Poll<Result<(), E>>) -> SendOutcome {
    match r {
        Poll::Ready(Ok(_)) => SendOutcome::Sent,
        Poll::Ready(Err(_)) => SendOutcome::Failed,
        Poll::Pending => SendOutcome::Wait,
    }
}

/// Poll-based TCP byte stream.
pub trait TcpStream {
    type Error;

    /// All that it was asked so far, and what it answered.
    spec fn history(&self) -> StreamHistory;

    /// Attempts to read data. `Ok(0)` is the end of the stream.
    fn poll_read(&mut self, cx: &mut Context, buf: &mut [u8]) -> (r: Poll<
        Result<usize, Self::Error>,
    >)
        ensures
            final(buf)@.len() == old(buf)@.len(),
            final(cx).wake_requested == old(cx).wake_requested,
            r matches Poll::Ready(Ok(n)) ==> n <= old(buf)@.len(),
            final(self).history() == old(self).history().after_read(read_outcome(r, final(buf)@)),
    ;

    /// Attempts to write data. A write that is ready takes at least one byte of
    /// a buffer that is not empty.
    fn poll_write(&mut self, cx: &mut Context, buf: &[u8]) -> (r: Poll<Result<usize, Self::Error>>)
        ensures
            final(cx).wake_requested == old(cx).wake_requested,
            r matches Poll::Ready(Ok(n)) ==> n <= buf@.len() && (buf@.len() > 0 ==> n > 0),
            final(self).history() == old(self).history().after_write(buf@, write_outcome(r)),
    ;
}

/// Poll-based TCP listener.
pub trait TcpAccept {
    type Stream: TcpStream;

    type Error;

    /// All that it has answered so far.
    spec fn accepts(&self) -> AcceptHistory;

    /// Attempts to accept a new connection.
    fn poll_accept(&mut self, cx: &mut Context) -> (r: Poll<Result<Self::Stream, Self::Error>>)
        ensures
            final(cx).wake_requested == old(cx).wake_requested,
            final(self).accepts() == old(self).accepts().push(accept_outcome(r)),
    ;
}

/// Poll-based UDP socket.
pub trait UdpSocket {
    type Addr: Address;

    type Error;

    /// All that it was asked so far, and what it answered.
    spec fn history(&self) -> SocketHistory<Self::Addr>;

    /// Attempts to receive a datagram.
    fn poll_recv_from(&mut self, cx: &mut Context, buf: &mut [u8]) -> (r: Poll<
        Result<(usize, Self::Addr), Self::Error>,
    >)
        ensures
            final(buf)@.len() == old(buf)@.len(),
            final(cx).wake_requested == old(cx).wake_requested,
            r matches Poll::Ready(Ok((n, _))) ==> n <= old(buf)@.len(),
            final(self).history() == old(self).history().after_receive(receive_outcome(r, final(buf)@)),
    ;

    /// Attempts to send a datagram.
    fn poll_send_to(&mut self, cx: &mut Context, buf: &[u8], addr: &Self::Addr) -> (r: Poll<
        Result<(), Self::Error>,
    >)
        ensures
            final(cx).wake_requested == old(cx).wake_requested,
            final(self).history() == old(self).history().after_send(buf@, *addr, send_outcome(r)),
    ;
}

/// A [`UdpSocket`] that never receives and discards what is sent, for servers
/// over TCP alone.
pub struct NoUdp<A> {
    asked: Ghost<SocketHistory<A>>,
}

impl<A> NoUdp<A> {
    /// All that it was asked.
    pub closed spec fn asked(&self) -> SocketHistory<A> {
        self.asked@
    }

    pub fn new() -> (r: Self)
        ensures
            r.asked() == SocketHistory::<A>::empty(),
    {
        NoUdp { asked: Ghost(SocketHistory::empty()) }
    }
}

impl<A> Default for NoUdp<A> {
    fn default() -> (r: Self)
        ensures
            r.asked() == SocketHistory::<A>::empty(),
    {
        Self::new()
    }
}

impl<A: Address> UdpSocket for NoUdp<A> {
    type Addr = A;

    type Error = Error;

    open spec fn history(&self) -> SocketHistory<A> {
        self.asked()
    }

    fn poll_recv_from(&mut self, cx: &mut Context, buf: &mut [u8]) -> (r: Poll<
        Result<(usize, A), Error>,
    >)
        ensures
            r is Pending,
            final(buf)@ == old(buf)@,
    {
        proof {
            self.asked@ = self.asked@.after_receive(ReceiveOutcome::Wait);
        }
        Poll::Pending
    }

    fn poll_send_to(&mut self, cx: &mut Context, buf: &[u8], addr: &A) -> (r: Poll<
        Result<(), Error>,
    >)
        ensures
            r == Poll::Ready(Ok::<(), Error>(())),
    {
        proof {
            self.asked@ = self.asked@.after_send(buf@, *addr, SendOutcome::Sent);
        }
        Poll::Ready(Ok(()))
    }
}

} // verus!
