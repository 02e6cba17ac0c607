//! Flow-control windows (RFC 9113 §5.2 and §6.9).

use vstd::prelude::*;

use crate::error::{Error, H2Error};

verus! {

/// The window of a connection at its start.
pub const DEFAULT_CONNECTION_WINDOW_SIZE: i32 = 65535;

/// The window of a stream before settings say otherwise.
pub const DEFAULT_INITIAL_WINDOW_SIZE: i32 = 65535;

/// The largest window.
pub const MAX_WINDOW_SIZE: i32 = 0x7fff_ffff;

/// The window after `n` bytes took up part of it.
pub open spec fn consumed(window: i32, n: u32) -> Result<i32, Error> {
    if n > window {
        Err(Error::Http2(H2Error::FlowControlError))
    } else {
        Ok((window - n) as i32)
    }
}

/// The window after credit for `n` bytes.
pub open spec fn replenished(window: i32, n: u32) -> Result<i32, Error> {
    if window + n > MAX_WINDOW_SIZE {
        Err(Error::Http2(H2Error::FlowControlError))
    } else {
        Ok((window + n) as i32)
    }
}

/// A flow-control window.
#[derive(Debug, Clone, Copy)]
pub struct FlowController {
    pub window: i32,
}

impl FlowController {
    pub fn new(window: i32) -> (r: Self)
        ensures
            r.window == window,
    {
        FlowController { window }
    }

    pub fn window(&self) -> (r: i32)
        ensures
            r == self.window,
    {
        self.window
    }

    /// Takes up `n` bytes of the window.
    pub fn consume(&mut self, n: u32) -> (r: Result<(), Error>)
        ensures
            match consumed(old(self).window, n) {
                Ok(w) => r == Ok::<(), Error>(()) && final(self).window == w,
                Err(e) => r == Err::<(), Error>(e) && *final(self) == *old(self),
            },
    {
        if n as i64 > self.window as i64 {
            return Err(Error::Http2(H2Error::FlowControlError));
        }
        self.window = (self.window as i64 - n as i64) as i32;
        Ok(())
    }

    /// Gives credit for `n` bytes.
    pub fn replenish(&mut self, n: u32) -> (r: Result<(), Error>)
        ensures
            match replenished(old(self).window, n) {
                Ok(w) => r == Ok::<(), Error>(()) && final(self).window == w,
                Err(e) => r == Err::<(), Error>(e) && *final(self) == *old(self),
            },
    {
        let w: i64 = self.window as i64 + n as i64;
        if w > MAX_WINDOW_SIZE as i64 {
            return Err(Error::Http2(H2Error::FlowControlError));
        }
        self.window = w as i32;
        Ok(())
    }
}

} // verus!
