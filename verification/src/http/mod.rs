//! What the HTTP versions have in common.

pub mod headers;
pub mod server_conn;

use vstd::prelude::*;

verus! {

/// The three decimal digits of a status code.
pub open spec fn status_digits(code: u16) -> Seq<u8> {
    seq![
        (48 + code / 100 % 10) as u8,
        (48 + code / 10 % 10) as u8,
        (48 + code % 10) as u8,
    ]
}

/// An HTTP status code.
#[derive(Debug, Clone, Copy, PartialEq, Eq, Structural)]
pub struct StatusCode(pub u16);

impl StatusCode {
    /// The code as three decimal digits.
    pub fn to_bytes(self) -> (r: [u8; 3])
        ensures
            r@ == status_digits(self.0),
    {
        let r: [u8; 3] = [
            (48 + self.0 / 100 % 10) as u8,
            (48 + self.0 / 10 % 10) as u8,
            (48 + self.0 % 10) as u8,
        ];
        assert(r@ =~= status_digits(self.0));
        r
    }
}

/// Timeouts of a connection, in microseconds.
#[derive(Debug, Clone, Copy, PartialEq, Eq, Structural)]
pub struct TimeoutConfig {
    /// How long a connection may be without received data.
    pub idle_timeout_us: Option<u64>,
    /// How long the first headers may take.
    pub header_timeout_us: Option<u64>,
}

impl TimeoutConfig {
    /// No timeouts.
    pub open spec fn none() -> TimeoutConfig {
        TimeoutConfig { idle_timeout_us: None, header_timeout_us: None }
    }
}

impl Default for TimeoutConfig {
    fn default() -> (r: Self)
        ensures
            r == TimeoutConfig::none(),
    {
        TimeoutConfig { idle_timeout_us: None, header_timeout_us: None }
    }
}

/// A time plus a duration, or the end of time where that comes earlier.
pub open spec fn deadline(start: u64, duration: u64) -> u64 {
    if start + duration > u64::MAX {
        u64::MAX
    } else {
        (start + duration) as u64
    }
}

/// The earlier of two deadlines, where there are any.
pub open spec fn earlier(a: Option<u64>, b: Option<u64>) -> Option<u64> {
    match (a, b) {
        (None, _) => b,
        (_, None) => a,
        (Some(x), Some(y)) => if x <= y {
            Some(x)
        } else {
            Some(y)
        },
    }
}

/// The earlier of two deadlines, where there are any.
pub fn earlier_deadline(a: Option<u64>, b: Option<u64>) -> (r: Option<u64>)
    ensures
        r == earlier(a, b),
{
    match a {
        None => b,
        Some(x) => match b {
            None => Some(x),
            Some(y) => if x <= y {
                Some(x)
            } else {
                Some(y)
            },
        },
    }
}

} // verus!
