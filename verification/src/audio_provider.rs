//! What a reader of audio does when the decoder runs into trouble.
//!
//! Reading and decoding are the caller's business. The decisions are made
//! here: which packets are decoded, which errors end the stream, which are
//! passed over, and which are fatal.

use vstd::prelude::*;

verus! {

/// What went wrong when the next packet was asked for.
#[derive(Clone, Copy, Debug, PartialEq, Eq, Structural)]
pub enum ReadFault {
    /// The input ended where more was expected.
    UnexpectedEnd,
    /// Any other error.
    Other,
}

/// What went wrong when a packet was decoded.
#[derive(Clone, Copy, Debug, PartialEq, Eq, Structural)]
pub enum DecodeFault {
    /// An input or output error inside the packet.
    Io,
    /// Any other error.
    Other,
}

/// What to do after a fault.
#[derive(Clone, Copy, Debug, PartialEq, Eq, Structural)]
pub enum FaultAction {
    /// The stream is over: hand out no more samples.
    EndOfStream,
    /// Drop the packet and go on with the next.
    SkipPacket,
    /// Give up on the whole recording.
    Abort,
}

/// Whether a packet of track `packet_track` is decoded when the samples of
/// track `selected_track` are wanted.
pub fn wants_packet(packet_track: u32, selected_track: u32) -> (r: bool)
    ensures
        r == (packet_track == selected_track),
{
    packet_track == selected_track
}

/// What to do when the next packet cannot be read. Input that ends early is
/// the end of the stream; anything else is fatal.
pub fn after_read_fault(fault: ReadFault) -> (action: FaultAction)
    ensures
        action == match fault {
            ReadFault::UnexpectedEnd => FaultAction::EndOfStream,
            ReadFault::Other => FaultAction::Abort,
        },
{
    match fault {
        ReadFault::UnexpectedEnd => FaultAction::EndOfStream,
        ReadFault::Other => FaultAction::Abort,
    }
}

/// What to do when a packet cannot be decoded. An input or output error costs
/// that one packet; anything else is fatal.
pub fn after_decode_fault(fault: DecodeFault) -> (action: FaultAction)
    ensures
        action == match fault {
            DecodeFault::Io => FaultAction::SkipPacket,
            DecodeFault::Other => FaultAction::Abort,
        },
{
    match fault {
        DecodeFault::Io => FaultAction::SkipPacket,
        DecodeFault::Other => FaultAction::Abort,
    }
}

} // verus!
