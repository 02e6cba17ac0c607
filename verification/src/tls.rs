//! The TLS layer under the HTTP connections.
//!
//! The handshake and the record protection are a [`TlsSession`]. It turns bytes
//! of the network into plaintext in the receive buffer, and plaintext in the
//! send buffer into bytes for the network.

use vstd::prelude::*;

use crate::buf::Buf;
use crate::bytes;
use crate::error;
use crate::error::Error;
use crate::io::{IoBufs, Wire};

verus! {

/// What a client brings to the handshake.
#[derive(Debug)]
pub struct TlsConfig {
    pub server_name: Vec<u8>,
    pub alpn_protocols: Vec<Vec<u8>>,
    pub pinned_certs: Vec<Vec<u8>>,
}

/// What a server brings to the handshake.
#[derive(Debug)]
pub struct ServerTlsConfig {
    pub cert_der: Vec<u8>,
    pub private_key_der: Vec<u8>,
    pub alpn_protocols: Vec<Vec<u8>>,
}

/// Storage for the three buffers of a TLS connection.
#[derive(Debug)]
pub struct TlsBufKit {
    pub net_recv: Vec<u8>,
    pub net_send: Vec<u8>,
    pub app_send: Vec<u8>,
}

/// What the buffers of a TLS connection hold.
#[verifier::ext_equal]
pub struct TlsWire {
    /// Plaintext received, and plaintext to be sent.
    pub io: Wire,
    /// Bytes for the network.
    pub out: Seq<u8>,
}

/// The buffers of a TLS connection, shared with the HTTP layer on top: what TLS
/// has decrypted is what HTTP receives, what HTTP sends is what TLS encrypts.
#[derive(Debug)]
pub struct TlsBufs<const BUF: usize> {
    pub io: IoBufs<BUF>,
    pub net_send: Buf<BUF>,
    /// The storage is on loan and has to be given back.
    pub lent: bool,
}

impl<const BUF: usize> View for TlsBufs<BUF> {
    type V = TlsWire;

    open spec fn view(&self) -> TlsWire {
        TlsWire { io: self.io@, out: self.net_send@ }
    }
}

impl TlsWire {
    /// Nothing in any of the buffers.
    pub open spec fn empty() -> TlsWire {
        TlsWire { io: Wire { recv: Seq::empty(), send: Seq::empty() }, out: Seq::empty() }
    }
}

/// Storage that still holds what was in the buffers on top of it.
pub open spec fn kit_holds(kit: TlsBufKit, wire: TlsWire) -> bool {
    &&& kit.net_recv@ == wire.io.recv
    &&& kit.app_send@ == wire.io.send
    &&& kit.net_send@ == wire.out
}

/// Lent storage comes back, with what its buffers held, if there was any.
pub open spec fn kit_returned(kit: Option<TlsBufKit>, held: Option<TlsWire>) -> bool {
    match (kit, held) {
        (Some(kit), Some(wire)) => kit_holds(kit, wire),
        (None, None) => true,
        _ => false,
    }
}

impl<const BUF: usize> TlsBufs<BUF> {
    pub open spec fn wf(&self) -> bool {
        self.io.wf() && self.net_send.wf()
    }

    pub fn new() -> (r: Self)
        ensures
            r.wf(),
            r@ == TlsWire::empty(),
            !r.lent,
    {
        TlsBufs { io: IoBufs::new(), net_send: Buf::new(), lent: false }
    }

    /// Buffers on top of lent storage.
    pub fn from_kit(kit: TlsBufKit) -> (r: Self)
        ensures
            r.wf(),
            r@ == TlsWire::empty(),
            r.lent,
    {
        TlsBufs {
            io: IoBufs {
                recv_buf: Buf::from_storage(kit.net_recv),
                send_buf: Buf::from_storage(kit.app_send),
            },
            net_send: Buf::from_storage(kit.net_send),
            lent: true,
        }
    }

    /// Gives lent storage back and leaves empty buffers.
    pub fn reclaim(&mut self) -> (r: Option<TlsBufKit>)
        requires
            old(self).wf(),
        ensures
            final(self).wf(),
            r is Some == old(self).lent,
            r matches Some(kit) ==> kit_holds(kit, old(self)@),
            !final(self).lent,
            final(self)@ == if old(self).lent {
                TlsWire::empty()
            } else {
                old(self)@
            },
    {
        if !self.lent {
            return None;
        }
        self.lent = false;
        let net_recv: Vec<u8> = self.io.recv_buf.take_storage();
        let app_send: Vec<u8> = self.io.send_buf.take_storage();
        let net_send: Vec<u8> = self.net_send.take_storage();
        Some(TlsBufKit { net_recv, net_send, app_send })
    }
}

/// One end of a TLS connection.
///
/// What each method does is stated by a spec function from the session's view
/// and the buffers.
pub trait TlsSession: View + Sized {
    spec fn client(config: TlsConfig, secret: Seq<u8>, random: Seq<u8>) -> Self::V;

    spec fn server(config: ServerTlsConfig, secret: Seq<u8>, random: Seq<u8>) -> Self::V;

    spec fn fed(s: Self::V, w: TlsWire, data: Seq<u8>, cap: int) -> (
        Self::V,
        TlsWire,
        Result<(), Error>,
    );

    spec fn polled(s: Self::V, w: TlsWire, room: int, cap: int) -> (
        Self::V,
        TlsWire,
        Option<Seq<u8>>,
    );

    spec fn closing(s: Self::V, w: TlsWire, cap: int) -> (Self::V, TlsWire, Result<(), Error>);

    spec fn active(s: Self::V) -> bool;

    spec fn shut(s: Self::V) -> bool;

    spec fn protocol(s: Self::V) -> Option<Seq<u8>>;

    /// Before the handshake is complete there is no plaintext.
    proof fn plaintext_waits(s: Self::V, w: TlsWire, data: Seq<u8>, cap: int)
        ensures
            Self::fed(s, w, data, cap).2 is Ok && !Self::active(Self::fed(s, w, data, cap).0)
                ==> Self::fed(s, w, data, cap).1.io.recv.len() == 0,
    ;

    /// A handshake that is complete stays so while bytes pass.
    proof fn stays_active(s: Self::V, w: TlsWire, data: Seq<u8>, room: int, cap: int)
        ensures
            Self::active(s) ==> Self::active(Self::fed(s, w, data, cap).0) && Self::active(
                Self::polled(s, w, room, cap).0,
            ),
    ;

    fn new_client(config: &TlsConfig, secret: [u8; 32], random: [u8; 32]) -> (r: Self)
        ensures
            r@ == Self::client(*config, secret@, random@),
    ;

    fn new_server(config: &ServerTlsConfig, secret: [u8; 32], random: [u8; 32]) -> (r: Self)
        ensures
            r@ == Self::server(*config, secret@, random@),
    ;

    /// Takes in bytes from the network.
    fn feed_data<const BUF: usize>(&mut self, bufs: &mut TlsBufs<BUF>, data: &[u8]) -> (r: Result<
        (),
        Error,
    >)
        requires
            old(bufs).wf(),
        ensures
            final(bufs).wf(),
            final(bufs).lent == old(bufs).lent,
            (final(self)@, final(bufs)@, r) == Self::fed(old(self)@, old(bufs)@, data@, BUF as int),
    ;

    /// Pulls bytes for the network.
    fn poll_output<'a, const BUF: usize>(
        &mut self,
        bufs: &mut TlsBufs<BUF>,
        buf: &'a mut [u8],
    ) -> (r: Option<&'a [u8]>)
        requires
            old(bufs).wf(),
        ensures
            bytes::chunk_at_start(old(buf)@, final(buf)@, r),
            final(bufs).wf(),
            final(bufs).lent == old(bufs).lent,
            final(self)@ == Self::polled(
                old(self)@,
                old(bufs)@,
                old(buf)@.len() as int,
                BUF as int,
            ).0,
            final(bufs)@ == Self::polled(
                old(self)@,
                old(bufs)@,
                old(buf)@.len() as int,
                BUF as int,
            ).1,
            match r {
                Some(chunk) => Self::polled(
                    old(self)@,
                    old(bufs)@,
                    old(buf)@.len() as int,
                    BUF as int,
                ).2 == Some(chunk@),
                None => Self::polled(
                    old(self)@,
                    old(bufs)@,
                    old(buf)@.len() as int,
                    BUF as int,
                ).2 is None,
            },
    ;

    /// Whether the handshake is complete.
    fn is_active(&self) -> (r: bool)
        ensures
            r == Self::active(self@),
    ;

    /// Whether the session is closed.
    fn is_closed(&self) -> (r: bool)
        ensures
            r == Self::shut(self@),
    ;

    /// The negotiated application protocol.
    fn alpn(&self) -> (r: Option<&[u8]>)
        ensures
            match r {
                Some(p) => Self::protocol(self@) == Some(p@),
                None => Self::protocol(self@) is None,
            },
    ;

    /// Starts a graceful close.
    fn close<const BUF: usize>(&mut self, bufs: &mut TlsBufs<BUF>) -> (r: Result<(), Error>)
        requires
            old(bufs).wf(),
        ensures
            final(bufs).wf(),
            final(bufs).lent == old(bufs).lent,
            (final(self)@, final(bufs)@, r) == Self::closing(old(self)@, old(bufs)@, BUF as int),
    ;
}

// ---------------------------------------------------------------------------
// A session without encryption
// ---------------------------------------------------------------------------

/// The byte with which either end of a plain session greets the other.
pub const HELLO: u8 = 0x16;

/// What is known of a plain session.
#[verifier::ext_equal]
pub struct Plain {
    pub hello_sent: bool,
    pub hello_received: bool,
    pub closed: bool,
    pub alpn: Option<Seq<u8>>,
}

/// A session without encryption, for links that are secured below it. Each end
/// greets the other with one byte; after that bytes pass as they are. An end is
/// ready once it was greeted: its own greeting goes out before anything else. The
/// application protocol is the first that an end is configured with.
#[derive(Debug)]
pub struct PlainSession {
    pub hello_sent: bool,
    pub hello_received: bool,
    pub closed: bool,
    pub alpn: Option<Vec<u8>>,
}

impl View for PlainSession {
    type V = Plain;

    open spec fn view(&self) -> Plain {
        Plain {
            hello_sent: self.hello_sent,
            hello_received: self.hello_received,
            closed: self.closed,
            alpn: match self.alpn {
                Some(p) => Some(p@),
                None => None,
            },
        }
    }
}

impl Plain {
    /// A session that has not begun.
    pub open spec fn start(protocols: Seq<Vec<u8>>) -> Plain {
        Plain {
            hello_sent: false,
            hello_received: false,
            closed: false,
            alpn: if protocols.len() > 0 {
                Some(protocols[0]@)
            } else {
                None
            },
        }
    }

    /// Bytes arrive: the greeting first, then plaintext.
    pub open spec fn received(self, w: TlsWire, data: Seq<u8>, cap: int) -> (
        Plain,
        TlsWire,
        Result<(), Error>,
    ) {
        let all = w.io.recv + data;
        if all.len() > cap {
            (self, w, Err(error::too_small(all.len() as int)))
        } else if self.hello_received || all.len() == 0 {
            (self, TlsWire { io: Wire { recv: all, ..w.io }, ..w }, Ok(()))
        } else if all[0] != HELLO {
            (self, TlsWire { io: Wire { recv: all, ..w.io }, ..w }, Err(Error::InvalidState))
        } else {
            (
                Plain { hello_received: true, ..self },
                TlsWire { io: Wire { recv: all.skip(1), ..w.io }, ..w },
                Ok(()),
            )
        }
    }

    /// The greeting is put out, where it was not and fits.
    pub open spec fn greeted(self, w: TlsWire, cap: int) -> (Plain, TlsWire) {
        if !self.hello_sent && w.out.len() < cap {
            (Plain { hello_sent: true, ..self }, TlsWire { out: w.out.push(HELLO), ..w })
        } else {
            (self, w)
        }
    }

    /// Plaintext is put out, as far as it fits, once both ends have greeted.
    pub open spec fn passed(self, w: TlsWire, cap: int) -> TlsWire {
        if self.hello_sent && self.hello_received {
            let n = if w.io.send.len() <= cap - w.out.len() {
                w.io.send.len() as int
            } else {
                cap - w.out.len()
            };
            TlsWire {
                io: Wire { send: w.io.send.skip(n), ..w.io },
                out: w.out + w.io.send.take(n),
            }
        } else {
            w
        }
    }

    /// The next at most `room` bytes for the network. The greeting goes alone.
    pub open spec fn output(self, w: TlsWire, room: int, cap: int) -> (
        Plain,
        TlsWire,
        Option<Seq<u8>>,
    ) {
        let (s, w1) = self.greeted(w, cap);
        let w2 = if self.hello_sent {
            s.passed(w1, cap)
        } else {
            w1
        };
        if w2.out.len() == 0 {
            (s, w2, None)
        } else {
            let n = if w2.out.len() <= room {
                w2.out.len() as int
            } else {
                room
            };
            (s, TlsWire { out: w2.out.skip(n), ..w2 }, Some(w2.out.take(n)))
        }
    }
}

fn first_protocol(protocols: &Vec<Vec<u8>>) -> (r: Option<Vec<u8>>)
    ensures
        match r {
            Some(p) => protocols@.len() > 0 && p@ == protocols@[0]@,
            None => protocols@.len() == 0,
        },
{
    if protocols.len() == 0 {
        return None;
    }
    Some(vstd::slice::slice_to_vec(protocols[0].as_slice()))
}

impl PlainSession {
    /// Puts out the greeting, where it was not and fits.
    fn greet<const BUF: usize>(&mut self, bufs: &mut TlsBufs<BUF>)
        requires
            old(bufs).wf(),
        ensures
            final(bufs).wf(),
            final(bufs).lent == old(bufs).lent,
            (final(self)@, final(bufs)@) == old(self)@.greeted(old(bufs)@, BUF as int),
    {
        if !self.hello_sent && bufs.net_send.len() < BUF {
            let hello: [u8; 1] = [HELLO];
            let ghost before = bufs.net_send@;
            let _ = bufs.net_send.extend_from_slice(&hello);
            assert(bufs.net_send@ =~= before.push(HELLO));
            self.hello_sent = true;
        }
    }

    /// Puts out plaintext, as far as it fits, once both ends have greeted.
    fn pass<const BUF: usize>(&self, bufs: &mut TlsBufs<BUF>)
        requires
            old(bufs).wf(),
        ensures
            final(bufs).wf(),
            final(bufs).lent == old(bufs).lent,
            final(bufs)@ == self@.passed(old(bufs)@, BUF as int),
    {
        if self.hello_sent && self.hello_received {
            let room: usize = BUF - bufs.net_send.len();
            let waiting: usize = bufs.io.send_buf.len();
            let n: usize = if waiting <= room {
                waiting
            } else {
                room
            };
            let ghost send = bufs.io.send_buf@;
            assert(send.subrange(0, n as int) =~= send.take(n as int));
            let _ = bufs.net_send.extend_from_slice(&bufs.io.send_buf.as_slice()[0..n]);
            bufs.io.send_buf.drain_front(n);
        }
    }
}

impl TlsSession for PlainSession {
    open spec fn client(config: TlsConfig, secret: Seq<u8>, random: Seq<u8>) -> Plain {
        Plain::start(config.alpn_protocols@)
    }

    open spec fn server(config: ServerTlsConfig, secret: Seq<u8>, random: Seq<u8>) -> Plain {
        Plain::start(config.alpn_protocols@)
    }

    open spec fn fed(s: Plain, w: TlsWire, data: Seq<u8>, cap: int) -> (
        Plain,
        TlsWire,
        Result<(), Error>,
    ) {
        s.received(w, data, cap)
    }

    open spec fn polled(s: Plain, w: TlsWire, room: int, cap: int) -> (
        Plain,
        TlsWire,
        Option<Seq<u8>>,
    ) {
        s.output(w, room, cap)
    }

    open spec fn closing(s: Plain, w: TlsWire, cap: int) -> (Plain, TlsWire, Result<(), Error>) {
        (Plain { closed: true, ..s }, w, Ok(()))
    }

    open spec fn active(s: Plain) -> bool {
        s.hello_received
    }

    open spec fn shut(s: Plain) -> bool {
        s.closed
    }

    open spec fn protocol(s: Plain) -> Option<Seq<u8>> {
        s.alpn
    }

    proof fn plaintext_waits(s: Plain, w: TlsWire, data: Seq<u8>, cap: int) {
    }

    proof fn stays_active(s: Plain, w: TlsWire, data: Seq<u8>, room: int, cap: int) {
    }

    fn new_client(config: &TlsConfig, secret: [u8; 32], random: [u8; 32]) -> (r: Self) {
        PlainSession {
            hello_sent: false,
            hello_received: false,
            closed: false,
            alpn: first_protocol(&config.alpn_protocols),
        }
    }

    fn new_server(config: &ServerTlsConfig, secret: [u8; 32], random: [u8; 32]) -> (r: Self) {
        PlainSession {
            hello_sent: false,
            hello_received: false,
            closed: false,
            alpn: first_protocol(&config.alpn_protocols),
        }
    }

    fn feed_data<const BUF: usize>(&mut self, bufs: &mut TlsBufs<BUF>, data: &[u8]) -> (r: Result<
        (),
        Error,
    >) {
        let needed: usize = bufs.io.recv_buf.len().saturating_add(data.len());
        if bufs.io.recv_buf.extend_from_slice(data).is_err() {
            return Err(Error::BufferTooSmall { needed });
        }
        if self.hello_received || bufs.io.recv_buf.is_empty() {
            return Ok(());
        }
        if bufs.io.recv_buf.as_slice()[0] != HELLO {
            return Err(Error::InvalidState);
        }
        bufs.io.recv_buf.drain_front(1);
        self.hello_received = true;
        Ok(())
    }

    fn poll_output<'a, const BUF: usize>(
        &mut self,
        bufs: &mut TlsBufs<BUF>,
        buf: &'a mut [u8],
    ) -> (r: Option<&'a [u8]>) {
        if self.hello_sent {
            self.pass(bufs);
        } else {
            self.greet(bufs);
        }
        if bufs.net_send.is_empty() {
            return None;
        }
        let avail: usize = bufs.net_send.len();
        let n: usize = if avail <= buf.len() {
            avail
        } else {
            buf.len()
        };
        let ghost out = bufs.net_send@;
        assert(out.subrange(0, n as int) =~= out.take(n as int));
        bytes::copy_into(buf, 0, &bufs.net_send.as_slice()[0..n]);
        bufs.net_send.drain_front(n);
        assert(buf@.subrange(0, n as int) =~= out.take(n as int));
        Some(&buf[0..n])
    }

    fn is_active(&self) -> (r: bool) {
        self.hello_received
    }

    fn is_closed(&self) -> (r: bool) {
        self.closed
    }

    fn alpn(&self) -> (r: Option<&[u8]>) {
        match &self.alpn {
            Some(p) => Some(p.as_slice()),
            None => None,
        }
    }

    fn close<const BUF: usize>(&mut self, bufs: &mut TlsBufs<BUF>) -> (r: Result<(), Error>) {
        self.closed = true;
        Ok(())
    }
}

// ---------------------------------------------------------------------------
// A server handshake before its HTTP version is known
// ---------------------------------------------------------------------------

/// A TLS server session with its buffers, before it is known which HTTP version
/// will run over it.
pub struct TlsParts<S: TlsSession, const BUF: usize> {
    pub tls: S,
    pub bufs: TlsBufs<BUF>,
}

/// What is known of a session with its buffers.
pub struct PartsModel<V> {
    pub tls: V,
    pub wire: TlsWire,
    pub lent: bool,
}

impl<S: TlsSession, const BUF: usize> View for TlsParts<S, BUF> {
    type V = PartsModel<S::V>;

    open spec fn view(&self) -> PartsModel<S::V> {
        PartsModel { tls: self.tls@, wire: self.bufs@, lent: self.bufs.lent }
    }
}

impl<S: TlsSession, const BUF: usize> TlsParts<S, BUF> {
    pub open spec fn wf(&self) -> bool {
        self.bufs.wf()
    }

    /// What feeding bytes gives.
    pub open spec fn fed(s: PartsModel<S::V>, data: Seq<u8>) -> (
        PartsModel<S::V>,
        Result<(), Error>,
    ) {
        let (tls, wire, r) = S::fed(s.tls, s.wire, data, BUF as int);
        (PartsModel { tls, wire, ..s }, r)
    }

    /// What polling for output gives.
    pub open spec fn polled(s: PartsModel<S::V>, room: int) -> (
        PartsModel<S::V>,
        Option<Seq<u8>>,
    ) {
        let (tls, wire, r) = S::polled(s.tls, s.wire, room, BUF as int);
        (PartsModel { tls, wire, ..s }, r)
    }

    /// A server session with buffers of its own.
    pub fn new_server(config: &ServerTlsConfig, secret: [u8; 32], random: [u8; 32]) -> (r: Self)
        ensures
            r.wf(),
            r@ == (PartsModel {
                tls: S::server(*config, secret@, random@),
                wire: TlsWire::empty(),
                lent: false,
            }),
    {
        TlsParts { tls: S::new_server(config, secret, random), bufs: TlsBufs::new() }
    }

    /// A server session with lent buffers.
    pub fn new_server_in(
        config: &ServerTlsConfig,
        secret: [u8; 32],
        random: [u8; 32],
        kit: TlsBufKit,
    ) -> (r: Self)
        ensures
            r.wf(),
            r@ == (PartsModel {
                tls: S::server(*config, secret@, random@),
                wire: TlsWire::empty(),
                lent: true,
            }),
    {
        TlsParts { tls: S::new_server(config, secret, random), bufs: TlsBufs::from_kit(kit) }
    }

    pub fn feed_data(&mut self, data: &[u8]) -> (r: Result<(), Error>)
        requires
            old(self).wf(),
        ensures
            final(self).wf(),
            (final(self)@, r) == Self::fed(old(self)@, data@),
    {
        self.tls.feed_data(&mut self.bufs, data)
    }

    pub fn poll_output<'a>(&mut self, buf: &'a mut [u8]) -> (r: Option<&'a [u8]>)
        requires
            old(self).wf(),
        ensures
            bytes::chunk_at_start(old(buf)@, final(buf)@, r),
            final(self).wf(),
            final(self)@ == Self::polled(old(self)@, old(buf)@.len() as int).0,
            match r {
                Some(chunk) => Self::polled(old(self)@, old(buf)@.len() as int).1 == Some(chunk@),
                None => Self::polled(old(self)@, old(buf)@.len() as int).1 is None,
            },
    {
        self.tls.poll_output(&mut self.bufs, buf)
    }

    pub fn is_active(&self) -> (r: bool)
        ensures
            r == S::active(self@.tls),
    {
        self.tls.is_active()
    }

    pub fn alpn(&self) -> (r: Option<&[u8]>)
        ensures
            match r {
                Some(p) => S::protocol(self@.tls) == Some(p@),
                None => S::protocol(self@.tls) is None,
            },
    {
        self.tls.alpn()
    }

    /// Gives lent buffers back.
    pub fn reclaim_buffers(&mut self) -> (r: Option<TlsBufKit>)
        requires
            old(self).wf(),
        ensures
            final(self).wf(),
            r is Some == old(self)@.lent,
            r matches Some(kit) ==> kit_holds(kit, old(self)@.wire),
            final(self)@ == if old(self)@.lent {
                PartsModel { wire: TlsWire::empty(), lent: false, ..old(self)@ }
            } else {
                old(self)@
            },
    {
        self.bufs.reclaim()
    }
}

} // verus!
