//! What a WebSocket connection delivers.

use vstd::prelude::*;
use super::BinanceSpotError;

verus! {

/// How long a connection lives without a ping, in nanoseconds.
pub const PING_TIMEOUT_NANOS: u128 = 300_000_000_000;

/// What a WebSocket connection delivers. A close frame carries its text, where there is one.
#[derive(Debug)]
pub enum SocketEvent {
    Text(String),
    Ping,
    Close(Option<String>),
    Other,
    Failed(BinanceSpotError),
    Ended,
}

/// Whether a connection is lost, where the last ping is `elapsed` nanoseconds ago.
pub fn timed_out(elapsed: u128) -> (r: bool)
    ensures
        r == (elapsed > PING_TIMEOUT_NANOS),
{
    elapsed > PING_TIMEOUT_NANOS
}

} // verus!
