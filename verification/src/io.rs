//! The two buffers between a protocol engine and its transport.

use vstd::prelude::*;

use crate::buf::Buf;
use crate::error;
use crate::error::Error;

verus! {

/// What the buffers hold: bytes that were received and not yet processed, and
/// bytes that wait to be sent.
#[verifier::ext_equal]
pub struct Wire {
    pub recv: Seq<u8>,
    pub send: Seq<u8>,
}

/// Receive and send buffer of one connection.
#[derive(Debug)]
pub struct IoBufs<const BUF: usize> {
    pub recv_buf: Buf<BUF>,
    pub send_buf: Buf<BUF>,
}

impl<const BUF: usize> View for IoBufs<BUF> {
    type V = Wire;

    open spec fn view(&self) -> Wire {
        Wire { recv: self.recv_buf@, send: self.send_buf@ }
    }
}

impl Wire {
    /// With bytes queued behind those that wait to be sent, where they fit.
    pub open spec fn queued(self, data: Seq<u8>, cap: int) -> Wire {
        if self.send.len() + data.len() <= cap {
            Wire { send: self.send + data, ..self }
        } else {
            self
        }
    }

    /// Whether queueing bytes succeeds.
    pub open spec fn queue_result(self, data: Seq<u8>, cap: int) -> Result<(), Error> {
        if self.send.len() + data.len() <= cap {
            Ok(())
        } else {
            Err(error::too_small((self.send.len() + data.len()) as int))
        }
    }

    /// Without the first `n` received bytes.
    pub open spec fn drained(self, n: int) -> Wire {
        Wire { recv: self.recv.skip(n), ..self }
    }
}

impl<const BUF: usize> IoBufs<BUF> {
    pub open spec fn wf(&self) -> bool {
        self.recv_buf.wf() && self.send_buf.wf()
    }

    pub fn new() -> (r: Self)
        ensures
            r.wf(),
            r@ == (Wire { recv: Seq::empty(), send: Seq::empty() }),
    {
        IoBufs { recv_buf: Buf::new(), send_buf: Buf::new() }
    }

    /// Queues bytes to be sent.
    pub fn queue_send(&mut self, data: &[u8]) -> (r: Result<(), Error>)
        requires
            old(self).wf(),
        ensures
            final(self).wf(),
            final(self)@ == old(self)@.queued(data@, BUF as int),
            r == old(self)@.queue_result(data@, BUF as int),
    {
        let needed: usize = self.send_buf.len().saturating_add(data.len());
        match self.send_buf.extend_from_slice(data) {
            Ok(()) => Ok(()),
            Err(()) => Err(Error::BufferTooSmall { needed }),
        }
    }

    /// Drops the first `n` received bytes.
    pub fn drain_recv(&mut self, n: usize)
        requires
            old(self).wf(),
            n <= old(self)@.recv.len(),
        ensures
            final(self).wf(),
            final(self)@ == old(self)@.drained(n as int),
    {
        self.recv_buf.drain_front(n);
    }
}

} // verus!
