//! The decisions of one direction of the byte relay that follows the
//! handshake: read into a fixed buffer, write everything read downstream,
//! and stop at the end of the stream or at the first failure.
use vstd::prelude::*;

verus! {

/// Bytes each direction of the relay reads at most at a time.
pub const RELAY_BUFFER_SIZE: usize = 8192;

/// What one direction of the relay does next.
#[derive(Clone, Copy, Debug, PartialEq, Eq, Structural)]
pub enum PumpAction {
    /// Read from the source into the buffer.
    Read,
    /// Write the first this many bytes of the buffer to the sink.
    Write(usize),
    /// This direction is over; so is the relay.
    Stop,
}

/// The step after a read: `read` is the number of bytes read, `None` when the
/// read failed. A read of no bytes is the end of the stream.
pub fn after_read(read: Option<usize>) -> (a: PumpAction)
    ensures
        a == match read {
            Some(n) => if n > 0 {
                PumpAction::Write(n)
            } else {
                PumpAction::Stop
            },
            None => PumpAction::Stop,
        },
{
    match read {
        Some(n) => if n > 0 {
            PumpAction::Write(n)
        } else {
            PumpAction::Stop
        },
        None => PumpAction::Stop,
    }
}

/// The step after writing what was read: read again if the write went
/// through, stop if it failed.
pub fn after_write(written: bool) -> (a: PumpAction)
    ensures
        a == if written {
            PumpAction::Read
        } else {
            PumpAction::Stop
        },
{
    if written {
        PumpAction::Read
    } else {
        PumpAction::Stop
    }
}

} // verus!
