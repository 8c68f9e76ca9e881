//! The decisions of the relay engine. The caller performs the reads, writes
//! and races, and hands the outcome of each to these functions.

use vstd::prelude::*;
use bytes::BytesMut;
use crate::codec::Message;

verus! {

/// Bytes read from the raw side per frame in framed mode.
pub const BRIDGE_CHUNK: usize = 1024;

/// A direction of a relayed connection.
#[derive(Clone, Copy, Debug, PartialEq, Eq, Structural)]
pub enum Direction {
    /// From the accepting side's peer towards the far side.
    ToFar,
    /// From the far side back towards the accepting side's peer.
    ToClient,
}

/// A relay that stopped on a transport error, with the direction that failed.
#[derive(Debug, PartialEq, Eq)]
pub struct RelayError {
    pub direction: Direction,
    pub reason: String,
}

/// The outcome of a copy-mode relay, from the direction that finished first
/// and what its copy returned (the bytes copied, or the error's text). A
/// clean end of stream is a normal finish.
pub fn relay_outcome(first: Direction, result: Result<u64, String>) -> (r: Result<u64, RelayError>)
    ensures
        match result {
            Ok(n) => r matches Ok(m) && m == n,
            Err(e) => r matches Err(x) && x.direction == first && x.reason@ == e@,
        },
{
    match result {
        Ok(n) => Ok(n),
        Err(reason) => Err(RelayError { direction: first, reason }),
    }
}

/// What happened on a framed-mode connection in one turn of its loop.
#[derive(Debug)]
pub enum BridgeEvent {
    /// A frame arrived from the tunnel.
    Frame(Message),
    /// Bytes were read from the raw side; none means it closed.
    Raw(Vec<u8>),
    /// The tunnel's frame stream ended.
    TunnelEnd,
}

/// What the loop does next.
#[derive(Debug)]
pub enum BridgeAction {
    /// Write these bytes to the raw side.
    WriteRaw(BytesMut),
    /// Send this frame into the tunnel.
    SendFrame(Message),
    /// Leave the loop cleanly.
    Finish,
}

/// One turn of the framed-mode loop of a connection tagged with `port`: a
/// frame's payload goes to the raw side verbatim, raw bytes go into the
/// tunnel as one frame for `port`, and either side's end finishes the loop.
pub fn bridge_step(port: u16, event: BridgeEvent) -> (r: BridgeAction)
    ensures
        match event {
            BridgeEvent::Frame(m) => r == BridgeAction::WriteRaw(m.payload),
            BridgeEvent::Raw(v) => if v@.len() == 0 {
                r is Finish
            } else {
                r matches BridgeAction::SendFrame(m) && m.wf() && m.view() == (
                    port,
                    v@.len() as u64,
                    v@,
                )
            },
            BridgeEvent::TunnelEnd => r is Finish,
        },
{
    match event {
        BridgeEvent::Frame(m) => BridgeAction::WriteRaw(m.payload),
        BridgeEvent::Raw(v) => {
            if v.len() == 0 {
                BridgeAction::Finish
            } else {
                BridgeAction::SendFrame(Message::new(port, v.as_slice()))
            }
        },
        BridgeEvent::TunnelEnd => BridgeAction::Finish,
    }
}

} // verus!
