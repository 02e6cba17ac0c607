//! What the server manager needs from HTTP/3 over QUIC.

use vstd::prelude::*;

use crate::bytes::{Field, HeaderField};
use crate::error::Error;
use crate::http::server_conn::{HttpEvent, HttpServerConn};
use crate::tls::{ServerTlsConfig, TlsBufKit, TlsWire};

verus! {

/// The longest connection ID.
pub const MAX_CID_LEN: usize = 20;

/// The length of the connection IDs that this end chooses.
pub const LOCAL_CID_LEN: usize = 8;

/// The destination connection ID of a datagram (RFC 8999 §5): behind version
/// and length in a long header, and of the length that this end chooses in a
/// short one.
pub open spec fn dcid_of(data: Seq<u8>, local_len: int) -> Option<Seq<u8>> {
    if data.len() == 0 {
        None
    } else if data[0] >= 128 {
        if data.len() >= 6 && data[5] <= MAX_CID_LEN && data.len() >= 6 + data[5] {
            Some(data.subrange(6, 6 + data[5]))
        } else {
            None
        }
    } else if data.len() >= 1 + local_len {
        Some(data.subrange(1, 1 + local_len))
    } else {
        None
    }
}

/// The destination connection ID of a datagram.
pub fn decode_dcid(data: &[u8], local_len: usize) -> (r: Option<&[u8]>)
    requires
        local_len <= MAX_CID_LEN,
    ensures
        match r {
            Some(cid) => dcid_of(data@, local_len as int) == Some(cid@),
            None => dcid_of(data@, local_len as int) is None,
        },
{
    if data.len() == 0 {
        return None;
    }
    if data[0] >= 128 {
        if data.len() < 6 {
            return None;
        }
        let n: usize = data[5] as usize;
        if n > MAX_CID_LEN || data.len() < 6 + n {
            return None;
        }
        return Some(&data[6..6 + n]);
    }
    if data.len() < 1 + local_len {
        return None;
    }
    Some(&data[1..1 + local_len])
}

/// The handshake slots that QUIC connections share.
pub trait HandshakePoolAccess: View {

}

impl<T: View> HandshakePoolAccess for T {

}

/// An HTTP/3 server connection over QUIC. `P` is the pool of handshake slots
/// that connections share; a connection holds one of them until its handshake
/// is over.
pub trait QuicServer<P: HandshakePoolAccess>: HttpServerConn {
    spec fn started(config: ServerTlsConfig, seed: Seq<u8>, pool: P::V) -> (
        Result<Self::V, Error>,
        P::V,
    );

    spec fn cids(s: Self::V) -> Seq<Seq<u8>>;

    spec fn datagram(s: Self::V, data: Seq<u8>, now: u64, pool: P::V) -> (
        Self::V,
        P::V,
        Result<(), Error>,
    );

    spec fn transmitted(s: Self::V, room: int, now: u64, pool: P::V) -> (
        Self::V,
        P::V,
        Option<Seq<u8>>,
    );

    spec fn slot_released(s: Self::V, pool: P::V) -> (Self::V, P::V);

    spec fn closing(s: Self::V) -> Self::V;

    /// A connection that is closed stays so, whatever the application does with it.
    proof fn stays_closed_in_use(
        s: Self::V,
        id: u64,
        room: int,
        status: u16,
        fs: Seq<Field>,
        data: Seq<u8>,
        end: bool,
    )
        requires
            Self::closed(s),
        ensures
            Self::closed(Self::event_polled(s).0),
            Self::closed(Self::headers_read(s, id).0),
            Self::closed(Self::body_read(s, id, room).0),
            Self::closed(Self::response_sent(s, id, status, fs, end).0),
            Self::closed(Self::body_sent(s, id, data, end).0),
            Self::closed(Self::closing(s)),
    ;

    /// A connection that is closed stays so, whatever comes in, goes out or runs
    /// out, and when its handshake slot is released.
    proof fn stays_closed_on_the_wire(
        s: Self::V,
        data: Seq<u8>,
        room: int,
        now: u64,
        pool: P::V,
    )
        requires
            Self::closed(s),
        ensures
            Self::closed(Self::datagram(s, data, now, pool).0),
            Self::closed(Self::transmitted(s, room, now, pool).0),
            Self::closed(Self::timed_out(s, now)),
            Self::closed(Self::slot_released(s, pool).0),
    ;

    /// Starts the server side of a connection from a random seed.
    fn server(config: &ServerTlsConfig, seed: [u8; 32], pool: &mut P) -> (r: Result<Self, Error>)
        ensures
            final(pool)@ == Self::started(*config, seed@, old(pool)@).1,
            match r {
                Ok(q) => q.conn_wf() && Self::started(*config, seed@, old(pool)@).0 == Ok::<
                    Self::V,
                    Error,
                >(q@),
                Err(e) => Self::started(*config, seed@, old(pool)@).0 == Err::<Self::V, Error>(e),
            },
    ;

    /// The connection IDs that this end is addressed by.
    fn local_cids(&self) -> (r: Vec<Vec<u8>>)
        ensures
            r@.len() == Self::cids(self@).len(),
            forall|i: int| 0 <= i < r@.len() ==> (#[trigger] r@[i])@ == Self::cids(self@)[i],
    ;

    /// Takes in a datagram.
    fn recv(&mut self, data: &[u8], now: u64, pool: &mut P) -> (r: Result<(), Error>)
        requires
            old(self).conn_wf(),
        ensures
            final(self).conn_wf(),
            (final(self)@, final(pool)@, r) == Self::datagram(old(self)@, data@, now, old(pool)@),
    ;

    /// Writes the next outgoing datagram to `buf`. Returns its length.
    fn poll_transmit(&mut self, buf: &mut [u8], now: u64, pool: &mut P) -> (r: Option<usize>)
        requires
            old(self).conn_wf(),
        ensures
            final(self).conn_wf(),
            final(buf)@.len() == old(buf)@.len(),
            ({
                let (s, p, out) = Self::transmitted(
                    old(self)@,
                    old(buf)@.len() as int,
                    now,
                    old(pool)@,
                );
                &&& final(self)@ == s
                &&& final(pool)@ == p
                &&& match r {
                    Some(n) => n <= old(buf)@.len() && out == Some(final(buf)@.take(n as int)),
                    None => out is None,
                }
            }),
    ;

    /// Gives back the handshake slot, where the connection still holds one.
    fn release_handshake_slot(&mut self, pool: &mut P)
        requires
            old(self).conn_wf(),
        ensures
            final(self).conn_wf(),
            (final(self)@, final(pool)@) == Self::slot_released(old(self)@, old(pool)@),
    ;

    /// Starts to close the connection.
    fn close(&mut self)
        requires
            old(self).conn_wf(),
        ensures
            final(self).conn_wf(),
            final(self)@ == Self::closing(old(self)@),
    ;
}

/// No QUIC: a connection that cannot be started, for servers over TCP alone.
#[derive(Debug, Clone, Copy)]
pub struct NoQuic;

impl View for NoQuic {
    type V = ();

    open spec fn view(&self) -> () {
        ()
    }
}

/// No handshake slots.
#[derive(Debug, Clone, Copy)]
pub struct NoPool;

impl View for NoPool {
    type V = ();

    open spec fn view(&self) -> () {
        ()
    }
}

impl HttpServerConn for NoQuic {
    open spec fn conn_wf(&self) -> bool {
        true
    }

    open spec fn event_polled(s: ()) -> ((), Option<HttpEvent>) {
        ((), None)
    }

    open spec fn headers_read(s: (), id: u64) -> ((), Seq<Field>, Result<(), Error>) {
        ((), Seq::empty(), Err(Error::InvalidState))
    }

    open spec fn body_read(s: (), id: u64, room: int) -> (
        (),
        Seq<u8>,
        Result<(usize, bool), Error>,
    ) {
        ((), Seq::empty(), Err(Error::InvalidState))
    }

    open spec fn response_sent(s: (), id: u64, status: u16, fs: Seq<Field>, end: bool) -> (
        (),
        Result<(), Error>,
    ) {
        ((), Err(Error::InvalidState))
    }

    open spec fn body_sent(s: (), id: u64, data: Seq<u8>, end: bool) -> ((), Result<usize, Error>) {
        ((), Err(Error::InvalidState))
    }

    open spec fn established(s: ()) -> bool {
        false
    }

    open spec fn closed(s: ()) -> bool {
        true
    }

    open spec fn deadline(s: ()) -> Option<u64> {
        None
    }

    open spec fn timed_out(s: (), now: u64) -> () {
        ()
    }

    open spec fn fed(s: (), data: Seq<u8>) -> ((), Result<(), Error>) {
        ((), Ok(()))
    }

    open spec fn fed_timed(s: (), data: Seq<u8>, now: u64) -> ((), Result<(), Error>) {
        ((), Ok(()))
    }

    open spec fn output_polled(s: (), room: int) -> ((), Option<Seq<u8>>) {
        ((), None)
    }

    open spec fn blocked(s: ()) -> bool {
        false
    }

    open spec fn reclaimed(s: ()) -> ((), Option<TlsWire>) {
        ((), None)
    }

    fn poll_event(&mut self, scratch: &mut [u8]) -> (r: Option<HttpEvent>) {
        None
    }

    fn recv_headers(&mut self, stream_id: u64, out: &mut Vec<HeaderField>) -> (r: Result<
        (),
        Error,
    >) {
        assert(crate::bytes::fields(out@) =~= crate::bytes::fields(out@) + Seq::empty());
        Err(Error::InvalidState)
    }

    fn recv_body(&mut self, stream_id: u64, buf: &mut [u8]) -> (r: Result<(usize, bool), Error>) {
        assert(buf@ =~= crate::bytes::splice(buf@, 0, Seq::empty()));
        Err(Error::InvalidState)
    }

    fn send_response(
        &mut self,
        stream_id: u64,
        status: u16,
        headers: &[(&[u8], &[u8])],
        end_stream: bool,
    ) -> (r: Result<(), Error>) {
        Err(Error::InvalidState)
    }

    fn send_body(&mut self, stream_id: u64, data: &[u8], end_stream: bool) -> (r: Result<
        usize,
        Error,
    >) {
        Err(Error::InvalidState)
    }

    fn is_established(&self) -> (r: bool) {
        false
    }

    fn is_closed(&self) -> (r: bool) {
        true
    }

    fn next_timeout(&self) -> (r: Option<u64>) {
        None
    }

    fn handle_timeout(&mut self, now: u64) {
    }

    fn tcp_feed_data(&mut self, data: &[u8]) -> (r: Result<(), Error>) {
        Ok(())
    }

    fn tcp_feed_data_timed(&mut self, data: &[u8], now: u64) -> (r: Result<(), Error>) {
        Ok(())
    }

    fn tcp_poll_output<'a>(&mut self, buf: &'a mut [u8]) -> (r: Option<&'a [u8]>) {
        None
    }

    fn recv_blocked(&self) -> (r: bool) {
        false
    }

    fn reclaim_buffers(&mut self) -> (r: Option<TlsBufKit>) {
        None
    }
}

impl<P: HandshakePoolAccess> QuicServer<P> for NoQuic {
    open spec fn started(config: ServerTlsConfig, seed: Seq<u8>, pool: P::V) -> (
        Result<(), Error>,
        P::V,
    ) {
        (Err(Error::InvalidState), pool)
    }

    open spec fn cids(s: ()) -> Seq<Seq<u8>> {
        Seq::empty()
    }

    open spec fn datagram(s: (), data: Seq<u8>, now: u64, pool: P::V) -> (
        (),
        P::V,
        Result<(), Error>,
    ) {
        ((), pool, Err(Error::InvalidState))
    }

    open spec fn transmitted(s: (), room: int, now: u64, pool: P::V) -> (
        (),
        P::V,
        Option<Seq<u8>>,
    ) {
        ((), pool, None)
    }

    open spec fn slot_released(s: (), pool: P::V) -> ((), P::V) {
        ((), pool)
    }

    open spec fn closing(s: ()) -> () {
        ()
    }

    proof fn stays_closed_in_use(
        s: (),
        id: u64,
        room: int,
        status: u16,
        fs: Seq<Field>,
        data: Seq<u8>,
        end: bool,
    ) {
    }

    proof fn stays_closed_on_the_wire(s: (), data: Seq<u8>, room: int, now: u64, pool: P::V) {
    }

    fn server(config: &ServerTlsConfig, seed: [u8; 32], pool: &mut P) -> (r: Result<Self, Error>) {
        Err(Error::InvalidState)
    }

    fn local_cids(&self) -> (r: Vec<Vec<u8>>) {
        Vec::new()
    }

    fn recv(&mut self, data: &[u8], now: u64, pool: &mut P) -> (r: Result<(), Error>) {
        Err(Error::InvalidState)
    }

    fn poll_transmit(&mut self, buf: &mut [u8], now: u64, pool: &mut P) -> (r: Option<usize>) {
        None
    }

    fn release_handshake_slot(&mut self, pool: &mut P) {
    }

    fn close(&mut self) {
    }
}

} // verus!
